//! Parsing and validation of BLE GATT characteristic attribute arguments.
//!
//! A characteristic attribute is a comma-separated list of items, each either
//! a bare capability keyword (`read`, `notify`, ...) or a key-value pair
//! (`uuid = "0x2A37"`, `on_read = my_callback`). This crate parses one such
//! list into a validated argument record, rejecting unknown keys and
//! malformed or missing values with positioned diagnostics, and binds the
//! record to the annotated field's metadata.

pub mod characteristic;
pub mod descriptor;
pub mod laws;
pub mod meta;
pub mod uuid;
