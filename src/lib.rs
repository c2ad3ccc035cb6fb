//! Marshalling between database values and dynamic host values, and a cursor
//! over the rows of a query result.
pub mod value;
pub mod decode;
pub mod encode;
pub mod row;
pub mod result;
pub mod laws;
pub mod convert;
