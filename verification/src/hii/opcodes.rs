//! IFR opcode, package-type and flag numbers (UEFI spec, HII chapter).

use vstd::prelude::*;

verus! {

pub const PACKAGE_FORMS: u8 = 0x02;
pub const PACKAGE_STRINGS: u8 = 0x04;
pub const PACKAGE_END: u8 = 0xDF;

pub const IFR_FORM_OP: u8 = 0x01;
pub const IFR_SUBTITLE_OP: u8 = 0x02;
pub const IFR_TEXT_OP: u8 = 0x03;
pub const IFR_ONE_OF_OP: u8 = 0x05;
pub const IFR_CHECKBOX_OP: u8 = 0x06;
pub const IFR_NUMERIC_OP: u8 = 0x07;
pub const IFR_PASSWORD_OP: u8 = 0x08;
pub const IFR_ONE_OF_OPTION_OP: u8 = 0x09;
pub const IFR_SUPPRESS_IF_OP: u8 = 0x0A;
pub const IFR_ACTION_OP: u8 = 0x0C;
pub const IFR_FORM_SET_OP: u8 = 0x0E;
pub const IFR_REF_OP: u8 = 0x0F;
pub const IFR_EQ_ID_VAL_OP: u8 = 0x12;
pub const IFR_GRAY_OUT_IF_OP: u8 = 0x19;
pub const IFR_DATE_OP: u8 = 0x1A;
pub const IFR_TIME_OP: u8 = 0x1B;
pub const IFR_STRING_OP: u8 = 0x1C;
pub const IFR_ORDERED_LIST_OP: u8 = 0x23;
pub const IFR_VARSTORE_OP: u8 = 0x24;
pub const IFR_VARSTORE_EFI_OP: u8 = 0x26;
pub const IFR_END_OP: u8 = 0x29;
pub const IFR_EQUAL_OP: u8 = 0x2F;
pub const IFR_UINT64_OP: u8 = 0x45;
pub const IFR_TRUE_OP: u8 = 0x46;
pub const IFR_DEFAULT_OP: u8 = 0x5B;
pub const IFR_DEFAULTSTORE_OP: u8 = 0x5C;

pub const IFR_TYPE_NUM_SIZE_8: u8 = 0x00;
pub const IFR_TYPE_NUM_SIZE_16: u8 = 0x01;
pub const IFR_TYPE_NUM_SIZE_32: u8 = 0x02;
pub const IFR_TYPE_NUM_SIZE_64: u8 = 0x03;
pub const IFR_TYPE_BOOLEAN: u8 = 0x04;
pub const IFR_TYPE_STRING: u8 = 0x07;

pub const IFR_NUMERIC_SIZE: u8 = 0x03;
pub const IFR_NUMERIC_SIZE_1: u8 = 0x00;
pub const IFR_NUMERIC_SIZE_2: u8 = 0x01;
pub const IFR_NUMERIC_SIZE_4: u8 = 0x02;
pub const IFR_NUMERIC_SIZE_8: u8 = 0x03;
pub const IFR_DISPLAY: u8 = 0x30;
pub const IFR_DISPLAY_INT_DEC: u8 = 0x00;
pub const IFR_DISPLAY_UINT_DEC: u8 = 0x10;
pub const IFR_DISPLAY_UINT_HEX: u8 = 0x20;
pub const IFR_OPTION_DEFAULT: u8 = 0x10;
pub const IFR_OPTION_DEFAULT_MFG: u8 = 0x20;
pub const IFR_CHECKBOX_DEFAULT: u8 = 0x01;
pub const IFR_CHECKBOX_DEFAULT_MFG: u8 = 0x02;

} // verus!
