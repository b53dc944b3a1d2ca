use vstd::prelude::*;

verus! {

pub const TAB: u8 = 9;
pub const LF: u8 = 10;
pub const CR: u8 = 13;
pub const SPACE: u8 = 32;
pub const DOUBLE_QUOTE: u8 = 34;
pub const SINGLE_QUOTE: u8 = 39;
pub const PLUS: u8 = 43;
pub const COMMA: u8 = 44;
pub const MINUS: u8 = 45;
pub const DIGIT_ZERO: u8 = 48;
pub const DIGIT_NINE: u8 = 57;
pub const BACKSLASH: u8 = 92;

} // verus!
