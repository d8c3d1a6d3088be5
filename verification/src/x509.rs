//! X.509: the `OtherName` of a general name.

pub mod other_name;
