//! Operator binding powers used by the Pratt parser.

use vstd::prelude::*;

verus! {

pub const COMMA: u8 = 10;
pub const ASSIGN: u8 = 20;
pub const AS_COERCE: u8 = 30;
pub const COLON: u8 = 31;
pub const CONDITIONAL: u8 = 40;
pub const OR: u8 = 50;
pub const XOR: u8 = 55;
pub const AND: u8 = 60;
pub const BIT_OR: u8 = 70;
pub const BIT_XOR: u8 = 80;
pub const BIT_AND: u8 = 90;
pub const RELATIONAL: u8 = 100;
pub const SHIFT: u8 = 110;
pub const ARROW: u8 = 115;
pub const ADDITIVE: u8 = 120;
pub const MULTIPLICATIVE: u8 = 130;
pub const POWER: u8 = 150;
pub const POSTFIX: u8 = 160;

} // verus!
