//! Named ASCII byte values used throughout the library.

use vstd::prelude::*;

verus! {

pub const A_UPPER: u8 = 65;

pub const B_UPPER: u8 = 66;

pub const C_UPPER: u8 = 67;

pub const D_UPPER: u8 = 68;

pub const G_UPPER: u8 = 71;

pub const H_UPPER: u8 = 72;

pub const K_UPPER: u8 = 75;

pub const M_UPPER: u8 = 77;

pub const N_UPPER: u8 = 78;

pub const R_UPPER: u8 = 82;

pub const S_UPPER: u8 = 83;

pub const T_UPPER: u8 = 84;

pub const U_UPPER: u8 = 85;

pub const V_UPPER: u8 = 86;

pub const W_UPPER: u8 = 87;

pub const Y_UPPER: u8 = 89;

pub const A_LOWER: u8 = 97;

pub const D_LOWER: u8 = 100;

pub const E_LOWER: u8 = 101;

pub const I_LOWER: u8 = 105;

pub const L_LOWER: u8 = 108;

pub const N_LOWER: u8 = 110;

pub const R_LOWER: u8 = 114;

pub const DIGIT_ZERO: u8 = 48;

pub const DIGIT_ONE: u8 = 49;

pub const DIGIT_TWO: u8 = 50;

pub const DIGIT_FOUR: u8 = 52;

pub const DIGIT_NINE: u8 = 57;

pub const PLUS: u8 = 43;

pub const MINUS: u8 = 45;

pub const COLON: u8 = 58;

pub const TAB: u8 = 9;

pub const NEWLINE: u8 = 10;

pub const LESS_THAN: u8 = 60;

pub const GREATER_THAN: u8 = 62;

pub const SLASH: u8 = 47;

pub const UNDERSCORE: u8 = 95;

pub const ASTERISK: u8 = 42;

pub const EXCLAM: u8 = 33;

/// Case folding distance between an ASCII upper-case letter and its
/// lower-case form.
pub const CASE_GAP: u8 = 32;

} // verus!
