//! The field flag bits (`/Ff`) of AcroForm fields.
use vstd::prelude::*;

verus! {

pub const READ_ONLY: u32 = 0x1;

pub const REQUIRED: u32 = 0x2;

pub const NO_EXPORT: u32 = 0x4;

pub const NO_TOGGLE_TO_OFF: u32 = 0x4000;

pub const RADIO: u32 = 0x8000;

pub const PUSHBUTTON: u32 = 0x1_0000;

pub const COMBO: u32 = 0x2_0000;

pub const EDIT: u32 = 0x4_0000;

pub const SORT: u32 = 0x8_0000;

pub const FILE_SELECT: u32 = 0x10_0000;

pub const MULTI_SELECT: u32 = 0x20_0000;

pub const DO_NOT_SPELL_CHECK: u32 = 0x40_0000;

pub const DO_NOT_SCROLL: u32 = 0x80_0000;

pub const COMB: u32 = 0x100_0000;

pub const RICH_TEXT: u32 = 0x200_0000;

} // verus!
