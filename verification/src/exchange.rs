//! One command and its reply.
//!
//! After a command has been written, frames are read and gathered until one
//! holds the status marker, or brings no text, or a read yields nothing. The
//! gathered reply is then judged: its status line decides the command's
//! outcome.

use vstd::prelude::*;
use vstd::string::*;
use vstd::utf8::*;
use crate::command::{command_method, lemma_select_text, method_of, select_text};
use crate::frame::{
    decode_status, extract_records, records_of_block, status_of_block, views_of,
};
use crate::query_result::{QueryErrorView, QueryResult};
use crate::query_status::{QueryStatus, StatusView};
use crate::querystring::{DecodeError, FromQueryString};
use crate::text::{contains, has, lemma_text_is_utf8};

verus! {

/// Why a reply could not be turned into an outcome.
#[derive(Debug, Clone, Copy, PartialEq, Eq, Structural)]
pub enum ProtocolError {
    /// Nothing came back at all.
    NoData,
    /// What came back holds no status line.
    NoStatusLine,
    /// The status line or a record could not be read.
    Decode(DecodeError),
}

/// The reply to one command as it is gathered frame by frame.
pub struct Exchange {
    buffer: String,
}

impl View for Exchange {
    type V = Seq<char>;

    closed spec fn view(&self) -> Seq<char> {
        self.buffer@
    }
}

impl Exchange {
    /// The state right after the command was written: nothing gathered.
    pub fn new() -> (res: Self)
        ensures
            res@ == Seq::<char>::empty(),
    {
        Self { buffer: String::new() }
    }

    /// Takes the outcome of one read, a frame or nothing, and says whether
    /// reading is over. A frame is added to the reply. Reading is over once
    /// a frame holds `error `, and also with a frame that brings no text at
    /// all, as the reads from a closed connection do; a frame with text but
    /// without the marker is a reply that is still arriving. Nothing read
    /// ends it at once.
    pub fn absorb(&mut self, frame: Option<&str>) -> (done: bool)
        ensures
            match frame {
                None => done && final(self)@ == old(self)@,
                Some(text) => final(self)@ == old(self)@ + text@ && done == (text@.len() == 0
                    || has(text.spec_bytes(), "error ".spec_bytes())),
            },
    {
        match frame {
            None => true,
            Some(text) => {
                self.buffer.append(text);
                text.is_empty() || contains(text.as_bytes(), "error ".as_bytes())
            },
        }
    }

    /// The reply once reading is over. A reply without any text is an error.
    pub fn finish(self) -> (res: Result<String, ProtocolError>)
        ensures
            match res {
                Ok(reply) => reply@ == self@ && self@.len() > 0,
                Err(e) => e == ProtocolError::NoData && self@.len() == 0,
            },
    {
        if self.buffer.as_str().is_empty() {
            Err(ProtocolError::NoData)
        } else {
            Ok(self.buffer)
        }
    }
}

/// What a reply means for the command `payload`: the command's outcome,
/// success or the server's refusal under the command's verb, or the error
/// for a reply without a readable status line.
pub open spec fn outcome_of(payload: Seq<u8>, reply: Seq<u8>) -> Result<
    Result<(), QueryErrorView>,
    ProtocolError,
> {
    match status_of_block(reply) {
        Err(e) => Err(ProtocolError::Decode(e)),
        Ok(None) => Err(ProtocolError::NoStatusLine),
        Ok(Some(status)) => if status.code == 0 {
            Ok(Ok(()))
        } else {
            Ok(
                Err(
                    QueryErrorView {
                        method: decode_utf8(method_of(payload)),
                        code: status.code,
                        message: status.message,
                    },
                ),
            )
        },
    }
}

/// Judges the reply to the command `payload`.
pub fn conclude(payload: &str, reply: &str) -> (res: Result<QueryResult<()>, ProtocolError>)
    ensures
        match res {
            Ok(Ok(_)) => outcome_of(payload.spec_bytes(), reply.spec_bytes()) == Ok::<
                Result<(), QueryErrorView>,
                ProtocolError,
            >(Ok(())),
            Ok(Err(refusal)) => outcome_of(payload.spec_bytes(), reply.spec_bytes()) == Ok::<
                Result<(), QueryErrorView>,
                ProtocolError,
            >(Err(refusal@)),
            Err(e) => outcome_of(payload.spec_bytes(), reply.spec_bytes()) == Err::<
                Result<(), QueryErrorView>,
                ProtocolError,
            >(e),
        },
{
    match decode_status(reply) {
        Err(e) => Err(ProtocolError::Decode(e)),
        Ok(None) => Err(ProtocolError::NoStatusLine),
        Ok(Some(status)) => {
            let method = command_method(payload);
            proof {
                lemma_text_is_utf8(method);
            }
            Ok(status.into_result(method, ()))
        },
    }
}

/// A reply whose status reports a failure gives the refusal under the
/// command's verb, with the code and the message of the status, whatever
/// its data lines hold.
pub proof fn lemma_refusal_names_the_verb(payload: Seq<u8>, reply: Seq<u8>, status: StatusView)
    requires
        status_of_block(reply) == Ok::<Option<StatusView>, DecodeError>(Some(status)),
        status.code != 0,
    ensures
        outcome_of(payload, reply) == Ok::<Result<(), QueryErrorView>, ProtocolError>(
            Err(
                QueryErrorView {
                    method: decode_utf8(method_of(payload)),
                    code: status.code,
                    message: status.message,
                },
            ),
        ),
{
}

/// A refused selection of a server connection is a refusal under `use`.
pub proof fn lemma_refused_selection(server_id: int, reply: Seq<u8>, status: StatusView)
    requires
        status_of_block(reply) == Ok::<Option<StatusView>, DecodeError>(Some(status)),
        status.code != 0,
    ensures
        outcome_of(encode_utf8(select_text(server_id)), reply) == Ok::<
            Result<(), QueryErrorView>,
            ProtocolError,
        >(Err(QueryErrorView { method: "use"@, code: status.code, message: status.message })),
{
    lemma_select_text(server_id);
    encode_utf8_decode_utf8("use"@);
}

/// What a reply holds for a command that asks for records: its status and
/// the records read in the schema of `T`.
pub open spec fn answer_of<T: FromQueryString>(reply: Seq<u8>) -> Result<
    (StatusView, Seq<T::V>),
    ProtocolError,
> {
    match status_of_block(reply) {
        Err(e) => Err(ProtocolError::Decode(e)),
        Ok(None) => Err(ProtocolError::NoStatusLine),
        Ok(Some(status)) => match records_of_block::<T>(reply) {
            Err(e) => Err(ProtocolError::Decode(e)),
            Ok(records) => Ok((status, records)),
        },
    }
}

/// Judges the reply to a command that asks for records.
pub fn conclude_with_records<T: FromQueryString>(reply: &str) -> (res: Result<
    (QueryStatus, Vec<T>),
    ProtocolError,
>)
    ensures
        match res {
            Ok((status, records)) => answer_of::<T>(reply.spec_bytes()) == Ok::<
                (StatusView, Seq<T::V>),
                ProtocolError,
            >((status@, views_of(records@))),
            Err(e) => answer_of::<T>(reply.spec_bytes()) == Err::<
                (StatusView, Seq<T::V>),
                ProtocolError,
            >(e),
        },
{
    match decode_status(reply) {
        Err(e) => Err(ProtocolError::Decode(e)),
        Ok(None) => Err(ProtocolError::NoStatusLine),
        Ok(Some(status)) => match extract_records::<T>(reply) {
            Err(e) => Err(ProtocolError::Decode(e)),
            Ok(records) => Ok((status, records)),
        },
    }
}

} // verus!
