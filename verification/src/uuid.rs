//! The textual form of a BLE UUID and its validating parser.
//!
//! A UUID may be written as 4 or 8 hexadecimal digits (optionally prefixed
//! by `0x` or `0X`), or as the 36-character hyphenated 128-bit form
//! `xxxxxxxx-xxxx-xxxx-xxxx-xxxxxxxxxxxx`.

use vstd::prelude::*;
use vstd::string::*;

verus! {

/// A validated 16-, 32- or 128-bit BLE UUID.
#[derive(Clone, Copy, PartialEq, Eq, Structural, Debug)]
pub enum Uuid {
    Uuid16(u16),
    Uuid32(u32),
    Uuid128(u128),
}

pub open spec fn is_hex_digit(c: char) -> bool {
    ('0' as u32 <= c as u32 && c as u32 <= '9' as u32)
    || ('a' as u32 <= c as u32 && c as u32 <= 'f' as u32)
    || ('A' as u32 <= c as u32 && c as u32 <= 'F' as u32)
}

pub open spec fn hex_digit_value(c: char) -> nat {
    if '0' as u32 <= c as u32 && c as u32 <= '9' as u32 {
        (c as u32 - '0' as u32) as nat
    } else if 'a' as u32 <= c as u32 && c as u32 <= 'f' as u32 {
        (c as u32 - 'a' as u32 + 10) as nat
    } else {
        (c as u32 - 'A' as u32 + 10) as nat
    }
}

pub open spec fn all_hex(s: Seq<char>) -> bool {
    forall|i: int| 0 <= i < s.len() ==> is_hex_digit(#[trigger] s[i])
}

/// The numeric value of a string of hexadecimal digits, most significant first.
pub open spec fn hex_value(s: Seq<char>) -> nat
    decreases s.len(),
{
    if s.len() == 0 {
        0
    } else {
        hex_value(s.drop_last()) * 16 + hex_digit_value(s.last())
    }
}

pub open spec fn pow16(n: nat) -> nat
    decreases n,
{
    if n == 0 {
        1
    } else {
        16 * pow16((n - 1) as nat)
    }
}

proof fn lemma_hex_digit_value_bound(c: char)
    requires
        is_hex_digit(c),
    ensures
        hex_digit_value(c) < 16,
{
}

proof fn lemma_hex_value_bound(s: Seq<char>)
    requires
        all_hex(s),
    ensures
        hex_value(s) < pow16(s.len()),
    decreases s.len(),
{
    if s.len() > 0 {
        lemma_hex_value_bound(s.drop_last());
        lemma_hex_digit_value_bound(s.last());
    }
}

proof fn lemma_pow16_adds(a: nat, b: nat)
    ensures
        pow16(a + b) == pow16(a) * pow16(b),
    decreases a,
{
    if a == 0 {
        assert(pow16(a) * pow16(b) == pow16(b)) by (nonlinear_arith)
            requires
                pow16(a) == 1,
        ;
    } else {
        lemma_pow16_adds((a - 1) as nat, b);
        assert(pow16(a + b) == 16 * pow16((a + b - 1) as nat));
        assert((a + b - 1) as nat == (a - 1) as nat + b);
        let x = pow16((a - 1) as nat);
        let y = pow16(b);
        assert(x * y >= 0) by (nonlinear_arith);
        assert(pow16((a + b - 1) as nat) == x * y);
        assert(pow16(a + b) == 16 * (x * y));
        assert(pow16(a + b) == pow16(a) * pow16(b)) by (nonlinear_arith)
            requires
                pow16(a + b) == 16 * (x * y),
                pow16(a) == 16 * x,
                pow16(b) == y,
        ;
    }
}

proof fn lemma_pow16_le(a: nat, b: nat)
    requires
        a <= b,
    ensures
        pow16(a) <= pow16(b),
    decreases b,
{
    if a < b && b > 0 {
        lemma_pow16_le(a, (b - 1) as nat);
    }
}

proof fn lemma_pow16_32()
    ensures
        pow16(32) == 0x100000000000000000000000000000000,
        pow16(4) == 0x10000,
        pow16(8) == 0x100000000,
        pow16(12) == 0x1000000000000,
        pow16(20) == 0x100000000000000000000,
{
    reveal_with_fuel(pow16, 33);
    assert(pow16(4) == 0x10000);
    assert(pow16(8) == 0x100000000);
    assert(pow16(12) == 0x1000000000000);
    assert(pow16(20) == 0x100000000000000000000);
    assert(pow16(32) == 0x100000000000000000000000000000000);
}

/// The value of a concatenation of digit strings: the left part is shifted
/// past the right part.
proof fn lemma_hex_value_append(a: Seq<char>, b: Seq<char>)
    ensures
        hex_value(a + b) == hex_value(a) * pow16(b.len()) + hex_value(b),
    decreases b.len(),
{
    assert(hex_value(a) * pow16(b.len()) >= 0) by (nonlinear_arith);
    if b.len() == 0 {
        assert(a + b =~= a);
        assert(hex_value(a) * pow16(b.len()) == hex_value(a)) by (nonlinear_arith)
            requires
                pow16(b.len()) == 1,
        ;
    } else {
        lemma_hex_value_append(a, b.drop_last());
        assert((a + b).drop_last() =~= a + b.drop_last());
        assert((a + b).last() == b.last());
        let x = hex_value(a);
        let p = pow16((b.len() - 1) as nat);
        let y = hex_value(b.drop_last());
        let d = hex_digit_value(b.last());
        assert(x * p >= 0) by (nonlinear_arith);
        assert(hex_value(a + b) == hex_value(a + b.drop_last()) * 16 + d);
        assert(hex_value(a + b.drop_last()) == x * p + y);
        assert((x * p + y) * 16 + d == x * (16 * p) + (y * 16 + d)) by (nonlinear_arith);
        assert(pow16(b.len()) == 16 * p);
        assert(hex_value(b) == y * 16 + d);
        assert(x * (16 * p) == x * pow16(b.len())) by (nonlinear_arith)
            requires
                pow16(b.len()) == 16 * p,
        ;
    }
}

fn hex_digit_val(c: char) -> (r: Option<u8>)
    ensures
        match r {
            Some(v) => is_hex_digit(c) && v as nat == hex_digit_value(c),
            None => !is_hex_digit(c),
        },
{
    let v = c as u32;
    if 48 <= v && v <= 57 {
        Some((v - 48) as u8)
    } else if 97 <= v && v <= 102 {
        Some((v - 87) as u8)
    } else if 65 <= v && v <= 70 {
        Some((v - 55) as u8)
    } else {
        None
    }
}

/// Reads the digits of `s` between `from` and `to` as one hexadecimal number.
fn hex_chunk(s: &str, from: usize, to: usize) -> (r: Option<u128>)
    requires
        from <= to <= s@.len(),
        to - from <= 32,
    ensures
        match r {
            Some(v) => all_hex(s@.subrange(from as int, to as int)) && v as nat == hex_value(
                s@.subrange(from as int, to as int),
            ),
            None => !all_hex(s@.subrange(from as int, to as int)),
        },
{
    let mut acc: u128 = 0;
    let mut i: usize = from;
    while i < to
        invariant
            from <= i <= to,
            to <= s@.len(),
            to - from <= 32,
            all_hex(s@.subrange(from as int, i as int)),
            acc as nat == hex_value(s@.subrange(from as int, i as int)),
            acc < pow16((i - from) as nat),
        decreases to - i,
    {
        let c = s.get_char(i);
        match hex_digit_val(c) {
            Some(d) => {
                proof {
                    lemma_pow16_le((i - from) as nat, 31);
                    lemma_pow16_adds(1, 31);
                    lemma_pow16_adds(1, (i - from) as nat);
                    lemma_pow16_32();
                    reveal_with_fuel(pow16, 2);
                }
                acc = acc * 16 + (d as u128);
                proof {
                    let prev = s@.subrange(from as int, i as int);
                    let cur = s@.subrange(from as int, i + 1 as int);
                    assert(cur =~= prev.push(s@[i as int]));
                    assert(cur.drop_last() =~= prev);
                }
            },
            None => {
                proof {
                    let sub = s@.subrange(from as int, to as int);
                    assert(sub[i - from] == s@[i as int]);
                }
                return None;
            },
        }
        i += 1;
    }
    proof {
        assert(s@.subrange(from as int, to as int) =~= s@.subrange(from as int, i as int));
    }
    Some(acc)
}

/// The 32 digits of the hyphenated form are hexadecimal exactly when each of
/// its five groups is.
proof fn lemma_uuid128_groups(s: Seq<char>)
    requires
        hyphen_positions_ok(s),
    ensures
        all_hex(uuid128_hex(s)) <==> (all_hex(s.subrange(0, 8)) && all_hex(s.subrange(9, 13))
            && all_hex(s.subrange(14, 18)) && all_hex(s.subrange(19, 23)) && all_hex(
            s.subrange(24, 36),
        )),
{
    let a0 = s.subrange(0, 8);
    let a1 = s.subrange(9, 13);
    let a2 = s.subrange(14, 18);
    let a3 = s.subrange(19, 23);
    let a4 = s.subrange(24, 36);
    let u = uuid128_hex(s);
    assert(u.len() == 32);
    if all_hex(a0) && all_hex(a1) && all_hex(a2) && all_hex(a3) && all_hex(a4) {
        assert forall|k: int| 0 <= k < u.len() implies is_hex_digit(#[trigger] u[k]) by {
            if k < 8 {
                assert(u[k] == a0[k]);
            } else if k < 12 {
                assert(u[k] == a1[k - 8]);
            } else if k < 16 {
                assert(u[k] == a2[k - 12]);
            } else if k < 20 {
                assert(u[k] == a3[k - 16]);
            } else {
                assert(u[k] == a4[k - 20]);
            }
        }
    }
    if all_hex(u) {
        assert forall|k: int| 0 <= k < 8 implies is_hex_digit(#[trigger] a0[k]) by {
            assert(a0[k] == u[k]);
        }
        assert forall|k: int| 0 <= k < 4 implies is_hex_digit(#[trigger] a1[k]) by {
            assert(a1[k] == u[8 + k]);
        }
        assert forall|k: int| 0 <= k < 4 implies is_hex_digit(#[trigger] a2[k]) by {
            assert(a2[k] == u[12 + k]);
        }
        assert forall|k: int| 0 <= k < 4 implies is_hex_digit(#[trigger] a3[k]) by {
            assert(a3[k] == u[16 + k]);
        }
        assert forall|k: int| 0 <= k < 12 implies is_hex_digit(#[trigger] a4[k]) by {
            assert(a4[k] == u[20 + k]);
        }
    }
}

/// The digit stretch of `s` after an optional `0x` / `0X` prefix.
pub open spec fn strip_prefix_0x(s: Seq<char>) -> Seq<char> {
    if s.len() >= 2 && s[0] == '0' && (s[1] == 'x' || s[1] == 'X') {
        s.subrange(2, s.len() as int)
    } else {
        s
    }
}

pub open spec fn hyphen_positions_ok(s: Seq<char>) -> bool {
    s.len() == 36 && s[8] == '-' && s[13] == '-' && s[18] == '-' && s[23] == '-'
}

/// The 32 digits of the hyphenated form, hyphens removed.
pub open spec fn uuid128_hex(s: Seq<char>) -> Seq<char> {
    s.subrange(0, 8) + s.subrange(9, 13) + s.subrange(14, 18) + s.subrange(19, 23) + s.subrange(
        24,
        36,
    )
}

/// What string the parser accepts, and which UUID it then yields.
pub open spec fn spec_parse_uuid(s: Seq<char>) -> Option<Uuid> {
    let t = strip_prefix_0x(s);
    if t.len() == 4 && all_hex(t) {
        Some(Uuid::Uuid16(hex_value(t) as u16))
    } else if t.len() == 8 && all_hex(t) {
        Some(Uuid::Uuid32(hex_value(t) as u32))
    } else if hyphen_positions_ok(s) && all_hex(uuid128_hex(s)) {
        Some(Uuid::Uuid128(hex_value(uuid128_hex(s)) as u128))
    } else {
        None
    }
}

pub open spec fn invalid_uuid_msg() -> Seq<char> {
    "invalid UUID string: expected 4 or 8 hex digits, optionally 0x-prefixed, or the 36-character hyphenated form"@
}

impl Uuid {
    /// Parses the textual form of a BLE UUID.
    pub fn from_string(s: &str) -> (r: Result<Uuid, String>)
        ensures
            match r {
                Ok(u) => spec_parse_uuid(s@) == Some(u),
                Err(m) => spec_parse_uuid(s@) is None && m@ == invalid_uuid_msg(),
            },
    {
        let n = s.unicode_len();
        let off: usize = if n >= 2 && s.get_char(0) == '0' && (s.get_char(1) == 'x' || s.get_char(1)
            == 'X') {
            2
        } else {
            0
        };
        proof {
            if off == 2 {
                assert(strip_prefix_0x(s@) =~= s@.subrange(2, n as int));
            } else {
                assert(strip_prefix_0x(s@) =~= s@.subrange(0, n as int));
                assert(s@.subrange(0, n as int) =~= s@);
            }
        }
        if n - off == 4 {
            match hex_chunk(s, off, n) {
                Some(v) => {
                    proof {
                        lemma_hex_value_bound(strip_prefix_0x(s@));
                        lemma_pow16_32();
                    }
                    Ok(Uuid::Uuid16(v as u16))
                },
                None => Err(Self::invalid_msg()),
            }
        } else if n - off == 8 {
            match hex_chunk(s, off, n) {
                Some(v) => {
                    proof {
                        lemma_hex_value_bound(strip_prefix_0x(s@));
                        lemma_pow16_32();
                    }
                    Ok(Uuid::Uuid32(v as u32))
                },
                None => Err(Self::invalid_msg()),
            }
        } else if n == 36 && s.get_char(8) == '-' && s.get_char(13) == '-' && s.get_char(18) == '-'
            && s.get_char(23) == '-' {
            Self::from_hyphenated(s)
        } else {
            Err(Self::invalid_msg())
        }
    }

    /// The hyphenated 128-bit form, already known to carry its four hyphens.
    fn from_hyphenated(s: &str) -> (r: Result<Uuid, String>)
        requires
            hyphen_positions_ok(s@),
            strip_prefix_0x(s@).len() != 4 && strip_prefix_0x(s@).len() != 8,
        ensures
            match r {
                Ok(u) => spec_parse_uuid(s@) == Some(u),
                Err(m) => spec_parse_uuid(s@) is None && m@ == invalid_uuid_msg(),
            },
    {
        let g0 = hex_chunk(s, 0, 8);
        let g1 = hex_chunk(s, 9, 13);
        let g2 = hex_chunk(s, 14, 18);
        let g3 = hex_chunk(s, 19, 23);
        let g4 = hex_chunk(s, 24, 36);
        match (g0, g1, g2, g3, g4) {
            (Some(v0), Some(v1), Some(v2), Some(v3), Some(v4)) => {
                let ghost a0 = s@.subrange(0, 8);
                let ghost a1 = s@.subrange(9, 13);
                let ghost a2 = s@.subrange(14, 18);
                let ghost a3 = s@.subrange(19, 23);
                let ghost a4 = s@.subrange(24, 36);
                let ghost h0 = hex_value(a0);
                let ghost h1 = hex_value(a1);
                let ghost h2 = hex_value(a2);
                let ghost h3 = hex_value(a3);
                let ghost h4 = hex_value(a4);
                proof {
                    lemma_pow16_32();
                    lemma_uuid128_groups(s@);
                    lemma_hex_value_bound(a0);
                    lemma_hex_value_bound(a1);
                    lemma_hex_value_bound(a2);
                    lemma_hex_value_bound(a3);
                    lemma_hex_value_bound(a4);
                    lemma_hex_value_append(a0, a1);
                    lemma_hex_value_append(a0 + a1, a2);
                    lemma_hex_value_append(a0 + a1 + a2, a3);
                    lemma_hex_value_append(a0 + a1 + a2 + a3, a4);
                    assert(h0 * pow16(4) == h0 * 0x10000) by (nonlinear_arith)
                        requires
                            pow16(4) == 0x10000,
                    ;
                    assert(hex_value(a0 + a1) == h0 * 0x10000 + h1);
                    let h01 = hex_value(a0 + a1);
                    assert(h01 * pow16(4) == h01 * 0x10000) by (nonlinear_arith)
                        requires
                            pow16(4) == 0x10000,
                    ;
                    assert(hex_value(a0 + a1 + a2) == h01 * 0x10000 + h2);
                    let h012 = hex_value(a0 + a1 + a2);
                    assert(h012 * pow16(4) == h012 * 0x10000) by (nonlinear_arith)
                        requires
                            pow16(4) == 0x10000,
                    ;
                    assert(hex_value(a0 + a1 + a2 + a3) == h012 * 0x10000 + h3);
                    let h0123 = hex_value(a0 + a1 + a2 + a3);
                    assert(h0123 * pow16(12) == h0123 * 0x1000000000000) by (nonlinear_arith)
                        requires
                            pow16(12) == 0x1000000000000,
                    ;
                    assert(hex_value(uuid128_hex(s@)) == h0123 * 0x1000000000000 + h4);
                }
                let mut acc: u128 = v0;
                acc = acc * 0x10000 + v1;
                acc = acc * 0x10000 + v2;
                acc = acc * 0x10000 + v3;
                acc = acc * 0x1000000000000 + v4;
                Ok(Uuid::Uuid128(acc))
            },
            _ => {
                proof {
                    lemma_uuid128_groups(s@);
                    assert(!all_hex(uuid128_hex(s@)));
                }
                Err(Self::invalid_msg())
            },
        }
    }

    fn invalid_msg() -> (m: String)
        ensures
            m@ == invalid_uuid_msg(),
    {
        String::from_str(
            "invalid UUID string: expected 4 or 8 hex digits, optionally 0x-prefixed, or the 36-character hyphenated form",
        )
    }
}

} // verus!
