//! Canonical wire list column IDs.

use vstd::prelude::*;

verus! {

pub const WIRE_NAME: &'static str = "WIRE_NAME";

pub const SHORT_DESCRIPTION: &'static str = "SHORT_DESCRIPTION";

pub const CUSTOMER_PART_NUMBER: &'static str = "CUSTOMER_PART_NUMBER";

pub const MATERIAL: &'static str = "MATERIAL";

pub const SPEC: &'static str = "SPEC";

pub const COLOR: &'static str = "COLOR";

pub const COLOR_DESCRIPTION: &'static str = "COLOR_DESCRIPTION";

pub const WIRE_FROM_PINLIST: &'static str = "WIRE_FROM_PINLIST";

pub const WIRE_FROM_CAVITY: &'static str = "WIRE_FROM_CAVITY";

pub const WIRE_TERMINAL_STRIP_LEN1: &'static str = "WIRE_TERMINAL_STRIP_LEN1";

pub const WIRE_TO_PINLIST: &'static str = "WIRE_TO_PINLIST";

pub const WIRE_TO_CAVITY: &'static str = "WIRE_TO_CAVITY";

pub const WIRE_TERMINAL_STRIP_LEN2: &'static str = "WIRE_TERMINAL_STRIP_LEN2";

pub const MODIFIED_LENGTH: &'static str = "MODIFIED_LENGTH";

pub const TWIST_WIDTH: &'static str = "TWIST_WIDTH";

pub const PROCESSING: &'static str = "PROCESSING";

pub const FROM_LABEL: &'static str = "FROM_LABEL";

pub const TO_LABEL: &'static str = "TO_LABEL";

pub const FROM_TERM_PARTNO: &'static str = "FROM_TERM_PARTNO";

pub const FROM_TERM_NAME: &'static str = "FROM_TERM_NAME";

pub const TO_TERM_PARTNO: &'static str = "TO_TERM_PARTNO";

pub const TO_TERM_NAME: &'static str = "TO_TERM_NAME";

} // verus!
