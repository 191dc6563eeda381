//! An RFC 5322 email address parser, with the RFC 6532 widening to Unicode.
//! Every grammar rule is an executable function proved equal to its
//! definition as a spec function; the parser decides whether a string is an
//! address and, if so, splits it into its local part and its domain.
pub mod classes;
pub mod scan;
pub mod tokens;
pub mod obsolete;
pub mod address;
pub mod email_address;
pub mod endings;
pub mod suffix;
pub mod prefix;

pub use address::{is_valid, parse, ParseMode};
pub use email_address::EmailAddress;
