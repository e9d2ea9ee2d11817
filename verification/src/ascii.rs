//! The ASCII bytes that the lexical rules name.

use vstd::prelude::*;

verus! {

/// Horizontal tab
pub const TAB: u8 = 9;
/// Line feed
pub const LINE_FEED: u8 = 10;
/// Carriage return
pub const CARRIAGE_RETURN: u8 = 13;
/// Space
pub const SPACE: u8 = 32;
/// `+`
pub const PLUS: u8 = 43;
/// `-`
pub const MINUS: u8 = 45;
/// `.`
pub const POINT: u8 = 46;
/// `0`
pub const DIGIT_0: u8 = 48;
/// `9`
pub const DIGIT_9: u8 = 57;
/// `:`
pub const COLON: u8 = 58;
/// `A`
pub const UPPER_A: u8 = 65;
/// `E`
pub const UPPER_E: u8 = 69;
/// `Z`
pub const UPPER_Z: u8 = 90;
/// `_`
pub const UNDERSCORE: u8 = 95;
/// `a`
pub const LOWER_A: u8 = 97;
/// `e`
pub const LOWER_E: u8 = 101;
/// `z`
pub const LOWER_Z: u8 = 122;

} // verus!
