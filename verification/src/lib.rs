//! A unit-conversion engine: it tokenizes a compound measurement expression
//! ("1yd 2ft 4.7in"), resolves each unit name against a catalog of
//! physical-quantity families under a tiered matching policy, aggregates the
//! source components per regional ratio variant, applies a linear ratio or a
//! non-linear temperature formula, and formats the result to a requested
//! decimal precision.  All numeric work is done in exact rational arithmetic.

pub mod rational;
pub mod text;
pub mod catalog;
pub mod resolve;
pub mod tokenize;
pub mod format;
pub mod convert;
pub mod laws;
