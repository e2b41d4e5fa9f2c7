//! The record that answers a server selection.

use vstd::prelude::*;
use vstd::string::*;
use crate::querystring::{
    number_field, read_number_i32, read_text, text_field, DecodeError, Field,
    FromQueryString, Pairs,
};

verus! {

/// A code and a message, as a selection reports them.
#[derive(Clone, Debug, PartialEq, Eq)]
pub struct SelectResult {
    id: i32,
    msg: String,
}

/// The mathematical content of a [`SelectResult`].
pub struct SelectView {
    pub code: int,
    pub message: Seq<char>,
}

impl View for SelectResult {
    type V = SelectView;

    closed spec fn view(&self) -> SelectView {
        SelectView { code: self.id as int, message: self.msg@ }
    }
}

impl SelectResult {
    /// The code.
    pub fn id(&self) -> (res: i32)
        ensures
            res as int == self@.code,
    {
        self.id
    }

    /// The message, decoded.
    pub fn msg(&self) -> (res: &str)
        ensures
            res@ == self@.message,
    {
        self.msg.as_str()
    }
}

impl FromQueryString for SelectResult {
    /// `id` is a required 32-bit number, `msg` a required text.
    open spec fn schema(pairs: Pairs) -> Result<SelectView, DecodeError> {
        match number_field(pairs, "id"@, i32::MIN as int, i32::MAX as int) {
            Err(e) => Err(e),
            Ok(code) => match text_field(pairs, "msg"@) {
                Err(e) => Err(e),
                Ok(message) => Ok(SelectView { code, message }),
            },
        }
    }

    fn from_fields(fields: &Vec<Field>) -> (res: Result<Self, DecodeError>) {
        match read_number_i32(fields, "id") {
            Err(e) => Err(e),
            Ok(id) => match read_text(fields, "msg") {
                Err(e) => Err(e),
                Ok(msg) => Ok(Self { id, msg }),
            },
        }
    }
}

} // verus!
