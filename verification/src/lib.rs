//! Framing and decoding for the TeamSpeak ClientQuery line protocol.
//!
//! The crate holds the protocol logic only: it takes the bytes and texts that a
//! connection produced and says what they mean and what to do next. Sockets,
//! timers and signals belong to the program that drives it.

pub mod command;
pub mod decimal;
pub mod exchange;
pub mod frame;
pub mod poked;
pub mod query_result;
pub mod query_status;
pub mod querystring;
pub mod select_result;
pub mod session;
pub mod text;

pub use query_result::QueryError;
pub use query_result::QueryResult;
pub use query_status::QueryStatus;
pub use querystring::FromQueryString;
pub use select_result::SelectResult;
