//! Rewrites task records by turning the lunar dates that a record's
//! `!lunar-calendar` special tag points at into solar (Gregorian) dates.
//!
//! - `text`: splitting on a separator and reading decimal integers.
//! - `lunar`: lunar dates written `YYYY-MM-DD` and their solar equivalents.
//! - `record`: records as the host exchanges them, and their normalized fields.
//! - `message`: the normalized record and the directive it carries.
//! - `convert`: carrying out the directive, all or nothing.
use vstd::prelude::*;

pub mod convert;
pub mod lunar;
pub mod message;
pub mod record;
pub mod text;

pub use crate::convert::run;

verus! {

} // verus!
