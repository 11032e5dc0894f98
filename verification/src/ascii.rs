//! The ASCII bytes that the scanners look for.

use vstd::prelude::*;

verus! {

pub const TAB: u8 = 0x09;
pub const LF: u8 = 0x0A;
pub const CR: u8 = 0x0D;
pub const SPACE: u8 = 0x20;
pub const QUOTE: u8 = 0x22;
pub const HASH: u8 = 0x23;
pub const DOLLAR: u8 = 0x24;
pub const PERCENT: u8 = 0x25;
pub const PAREN_OPEN: u8 = 0x28;
pub const PAREN_CLOSE: u8 = 0x29;
pub const PLUS: u8 = 0x2B;
pub const COMMA: u8 = 0x2C;
pub const HYPHEN: u8 = 0x2D;
pub const DOT: u8 = 0x2E;
pub const DIGIT_0: u8 = 0x30;
pub const DIGIT_9: u8 = 0x39;
pub const COLON: u8 = 0x3A;
pub const SEMICOLON: u8 = 0x3B;
pub const ANGLE_OPEN: u8 = 0x3C;
pub const EQUALS: u8 = 0x3D;
pub const ANGLE_CLOSE: u8 = 0x3E;
pub const UPPER_A: u8 = 0x41;
pub const UPPER_L: u8 = 0x4C;
pub const UPPER_S: u8 = 0x53;
pub const UPPER_Z: u8 = 0x5A;
pub const SQUARE_OPEN: u8 = 0x5B;
pub const BACKSLASH: u8 = 0x5C;
pub const SQUARE_CLOSE: u8 = 0x5D;
pub const UNDERSCORE: u8 = 0x5F;
pub const LOWER_A: u8 = 0x61;
pub const LOWER_H: u8 = 0x68;
pub const LOWER_J: u8 = 0x6A;
pub const LOWER_L: u8 = 0x6C;
pub const LOWER_Q: u8 = 0x71;
pub const LOWER_S: u8 = 0x73;
pub const LOWER_T: u8 = 0x74;
pub const LOWER_Z: u8 = 0x7A;
pub const CURLY_OPEN: u8 = 0x7B;
pub const PIPE: u8 = 0x7C;
pub const CURLY_CLOSE: u8 = 0x7D;
pub const TILDE: u8 = 0x7E;

} // verus!
