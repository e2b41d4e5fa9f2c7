//! The notification that the server pushes when somebody pokes the client.

use vstd::prelude::*;
use vstd::string::*;
use vstd::utf8::*;
use crate::querystring::{
    number_field, read_number_i64, read_text, read_text_or_empty, record_of, text_field,
    text_field_or_empty, DecodeError, Field, FromQueryString, Pairs,
};
use crate::text::{after_first, lemma_text_is_utf8, split_once};

verus! {

/// A poke: on which server connection it came, who sent it, and what it
/// said.
#[derive(Clone, Debug, PartialEq, Eq)]
pub struct NotifyClientPoke {
    server_handler_id: i64,
    invoker_id: i64,
    invoker_name: String,
    msg: String,
}

/// The mathematical content of a [`NotifyClientPoke`].
pub struct PokeView {
    pub server_handler_id: int,
    pub invoker_id: int,
    pub invoker_name: Seq<char>,
    pub message: Seq<char>,
}

impl View for NotifyClientPoke {
    type V = PokeView;

    closed spec fn view(&self) -> PokeView {
        PokeView {
            server_handler_id: self.server_handler_id as int,
            invoker_id: self.invoker_id as int,
            invoker_name: self.invoker_name@,
            message: self.msg@,
        }
    }
}

/// What a line reads as a poke: the record that follows the first
/// `notifyclientpoke ` token, in the poke schema.
pub open spec fn poke_of_line(line: Seq<u8>) -> Result<PokeView, DecodeError> {
    match after_first(line, "notifyclientpoke ".spec_bytes()) {
        None => Err(DecodeError::MissingToken),
        Some(record) => record_of::<NotifyClientPoke>(decode_utf8(record)),
    }
}

impl NotifyClientPoke {
    /// The handle of the server connection on which the poke came.
    pub fn server_handler_id(&self) -> (res: i64)
        ensures
            res as int == self@.server_handler_id,
    {
        self.server_handler_id
    }

    /// The client id of the one who poked.
    pub fn invoker_id(&self) -> (res: i64)
        ensures
            res as int == self@.invoker_id,
    {
        self.invoker_id
    }

    /// The name of the one who poked.
    pub fn invoker_name(&self) -> (res: &str)
        ensures
            res@ == self@.invoker_name,
    {
        self.invoker_name.as_str()
    }

    /// The text that came with the poke; empty where none came.
    pub fn msg(&self) -> (res: &str)
        ensures
            res@ == self@.message,
    {
        self.msg.as_str()
    }

    /// Reads a notification line: what follows its first
    /// `notifyclientpoke ` token is the record.
    pub fn from_line(line: &str) -> (res: Result<Self, DecodeError>)
        ensures
            match res {
                Ok(poke) => poke_of_line(line.spec_bytes()) == Ok::<PokeView, DecodeError>(poke@),
                Err(e) => poke_of_line(line.spec_bytes()) == Err::<PokeView, DecodeError>(e),
            },
    {
        match split_once(line, "notifyclientpoke ") {
            None => Err(DecodeError::MissingToken),
            Some((_, record)) => {
                proof {
                    lemma_text_is_utf8(record);
                }
                Self::from_query(record)
            },
        }
    }
}

impl FromQueryString for NotifyClientPoke {
    /// `schandlerid` and `invokerid` are required 64-bit numbers,
    /// `invokername` is a required text, and `msg` a text that may be
    /// absent.
    open spec fn schema(pairs: Pairs) -> Result<PokeView, DecodeError> {
        match number_field(pairs, "schandlerid"@, i64::MIN as int, i64::MAX as int) {
            Err(e) => Err(e),
            Ok(server_handler_id) => match number_field(
                pairs,
                "invokerid"@,
                i64::MIN as int,
                i64::MAX as int,
            ) {
                Err(e) => Err(e),
                Ok(invoker_id) => match text_field(pairs, "invokername"@) {
                    Err(e) => Err(e),
                    Ok(invoker_name) => Ok(
                        PokeView {
                            server_handler_id,
                            invoker_id,
                            invoker_name,
                            message: text_field_or_empty(pairs, "msg"@),
                        },
                    ),
                },
            },
        }
    }

    fn from_fields(fields: &Vec<Field>) -> (res: Result<Self, DecodeError>) {
        match read_number_i64(fields, "schandlerid") {
            Err(e) => Err(e),
            Ok(server_handler_id) => match read_number_i64(fields, "invokerid") {
                Err(e) => Err(e),
                Ok(invoker_id) => match read_text(fields, "invokername") {
                    Err(e) => Err(e),
                    Ok(invoker_name) => {
                        let msg = read_text_or_empty(fields, "msg");
                        Ok(Self { server_handler_id, invoker_id, invoker_name, msg })
                    },
                },
            },
        }
    }
}

} // verus!
