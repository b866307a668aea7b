//! Patterns of two kinds, parsed and written with verified contracts:
//!
//! - `datetime`: UTS 35 date/time patterns such as `"dd/MM/y 'at' HH:mm"`, made of
//!   fields (`fields`) and literal text;
//! - `placeholder`: placeholder patterns such as `"{0}, {1}"`, which are interpolated
//!   with replacements.

use vstd::prelude::*;

pub mod chars;
pub mod datetime;
pub mod fields;
pub mod placeholder;

verus! {

} // verus!
