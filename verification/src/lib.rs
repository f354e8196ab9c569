//! Literal substring search over lines of text: the matching engine, the
//! rendering of matching lines and the decisions of a directory-walking
//! command-line front end.

pub mod driver;
pub mod encoding;
pub mod fold;
pub mod matcher;
pub mod report;
pub mod request;
pub mod scan;
pub mod substring;
