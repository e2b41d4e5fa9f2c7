//! The failure half of a command's outcome.

use vstd::prelude::*;
use vstd::string::*;
use crate::decimal::{decimal_text, write_i64};

verus! {

/// What a command yields: its value, or the server's refusal.
pub type QueryResult<T> = Result<T, QueryError>;

/// A refusal by the server: the command verb, the status code and the
/// server's message.
#[derive(Debug, PartialEq, Eq)]
pub struct QueryError {
    method: String,
    id: i32,
    msg: String,
}

/// The mathematical content of a [`QueryError`].
pub struct QueryErrorView {
    pub method: Seq<char>,
    pub code: int,
    pub message: Seq<char>,
}

impl View for QueryError {
    type V = QueryErrorView;

    closed spec fn view(&self) -> QueryErrorView {
        QueryErrorView { method: self.method@, code: self.id as int, message: self.msg@ }
    }
}

impl QueryError {
    pub fn new(method: &str, id: i32, msg: String) -> (res: Self)
        ensures
            res@ == (QueryErrorView { method: method@, code: id as int, message: msg@ }),
    {
        Self { method: method.to_owned(), id, msg }
    }

    /// The verb of the command that was refused.
    pub fn method(&self) -> (res: &str)
        ensures
            res@ == self@.method,
    {
        self.method.as_str()
    }

    /// The status code the server answered with.
    pub fn id(&self) -> (res: i32)
        ensures
            res as int == self@.code,
    {
        self.id
    }

    /// The server's message, decoded.
    pub fn msg(&self) -> (res: &str)
        ensures
            res@ == self@.message,
    {
        self.msg.as_str()
    }

    /// The failure in words: the verb, the code and, in brackets, the
    /// message.
    pub fn to_string(&self) -> (res: String)
        ensures
            res@ == "Call method: "@ + self@.method + " error! Code: "@ + decimal_text(
                self@.code,
            ) + "("@ + self@.message + ")"@,
    {
        let mut out = "Call method: ".to_owned();
        out.append(self.method.as_str());
        out.append(" error! Code: ");
        write_i64(&mut out, self.id as i64);
        out.append("(");
        out.append(self.msg.as_str());
        out.append(")");
        out
    }
}

} // verus!
