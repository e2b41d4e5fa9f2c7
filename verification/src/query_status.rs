//! The status line that closes every response.

use vstd::prelude::*;
use vstd::string::*;
use vstd::utf8::*;
use crate::query_result::{QueryError, QueryErrorView, QueryResult};
use crate::querystring::{
    number_field, read_number_i32, read_text, record_of, text_field, DecodeError, Field,
    FromQueryString, Pairs,
};
use crate::text::{after_first, lemma_text_is_utf8, split_once};

verus! {

/// The server's verdict on a command: a code, 0 for success, and a message.
#[derive(Clone, Debug, PartialEq, Eq)]
pub struct QueryStatus {
    id: i32,
    msg: String,
}

/// The mathematical content of a [`QueryStatus`].
pub struct StatusView {
    pub code: int,
    pub message: Seq<char>,
}

impl View for QueryStatus {
    type V = StatusView;

    closed spec fn view(&self) -> StatusView {
        StatusView { code: self.id as int, message: self.msg@ }
    }
}

impl Default for QueryStatus {
    /// The status assumed while none has been seen: success, `ok`.
    fn default() -> (res: Self)
        ensures
            res@ == (StatusView { code: 0, message: "ok"@ }),
    {
        Self { id: 0, msg: "ok".to_owned() }
    }
}

/// What a line reads as a status: the record that follows the first
/// `error ` token, in the status schema.
pub open spec fn status_of_line(line: Seq<u8>) -> Result<StatusView, DecodeError> {
    match after_first(line, "error ".spec_bytes()) {
        None => Err(DecodeError::MissingToken),
        Some(record) => record_of::<QueryStatus>(decode_utf8(record)),
    }
}

impl QueryStatus {
    /// A status with the given code and message.
    pub fn new(id: i32, msg: String) -> (res: Self)
        ensures
            res@ == (StatusView { code: id as int, message: msg@ }),
    {
        Self { id, msg }
    }

    /// The status code.
    pub fn id(&self) -> (res: i32)
        ensures
            res as int == self@.code,
    {
        self.id
    }

    /// The message, decoded.
    pub fn msg(&self) -> (res: &str)
        ensures
            res@ == self@.message,
    {
        self.msg.as_str()
    }

    /// Whether the status reports success.
    pub fn is_ok(&self) -> (res: bool)
        ensures
            res == (self@.code == 0),
    {
        self.id == 0
    }

    /// The failure that this status amounts to for the command `method`.
    pub fn into_error(self, method: &str) -> (res: QueryError)
        ensures
            res@ == (QueryErrorView {
                method: method@,
                code: self@.code,
                message: self@.message,
            }),
    {
        QueryError::new(method, self.id, self.msg)
    }

    /// The outcome of the command `method` under this status: `data` on
    /// success, else the failure with this status's code and message.
    pub fn into_result<T: Send>(self, method: &str, data: T) -> (res: QueryResult<T>)
        ensures
            match res {
                Ok(v) => self@.code == 0 && v == data,
                Err(e) => self@.code != 0 && e@ == (QueryErrorView {
                    method: method@,
                    code: self@.code,
                    message: self@.message,
                }),
            },
    {
        if self.is_ok() {
            Ok(data)
        } else {
            Err(self.into_error(method))
        }
    }

    /// Reads a status line: what follows its first `error ` token is the
    /// record.
    pub fn try_from(value: &str) -> (res: Result<Self, DecodeError>)
        ensures
            match res {
                Ok(status) => status_of_line(value.spec_bytes()) == Ok::<StatusView, DecodeError>(
                    status@,
                ),
                Err(e) => status_of_line(value.spec_bytes()) == Err::<StatusView, DecodeError>(e),
            },
    {
        match split_once(value, "error ") {
            None => Err(DecodeError::MissingToken),
            Some((_, record)) => {
                proof {
                    lemma_text_is_utf8(record);
                }
                Self::from_query(record)
            },
        }
    }
}

impl FromQueryString for QueryStatus {
    /// `id` is a required 32-bit number, `msg` a required text.
    open spec fn schema(pairs: Pairs) -> Result<StatusView, DecodeError> {
        match number_field(pairs, "id"@, i32::MIN as int, i32::MAX as int) {
            Err(e) => Err(e),
            Ok(code) => match text_field(pairs, "msg"@) {
                Err(e) => Err(e),
                Ok(message) => Ok(StatusView { code, message }),
            },
        }
    }

    fn from_fields(fields: &Vec<Field>) -> (res: Result<Self, DecodeError>) {
        match read_number_i32(fields, "id") {
            Err(e) => Err(e),
            Ok(id) => match read_text(fields, "msg") {
                Err(e) => Err(e),
                Ok(msg) => Ok(Self { id, msg }),
            },
        }
    }
}

} // verus!
