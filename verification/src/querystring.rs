//! Records of `key=value` pairs.
//!
//! The pair grammar itself (how a record splits into pairs, how escapes in
//! keys and values are undone, which of several values of one key counts) is
//! the work of the `serde_teamspeak_querystring` crate. This module hands a
//! record to that crate and reads typed fields from what comes back.

use vstd::prelude::*;
use vstd::string::*;
use vstd::utf8::*;
use crate::decimal::{number_within, read_i32, read_i64};
use crate::text::{
    parts_of, run_end, run_len, same_text, split_parts, BACKSLASH, EQUALS, SPACE,
};

verus! {

/// The error of the `serde_teamspeak_querystring` crate, carried through
/// unread.
#[verifier::external_type_specification]
#[verifier::external_body]
pub struct ExQueryStringError(serde_teamspeak_querystring::Error);

/// One decoded pair of a record.
#[derive(Debug, Clone, PartialEq, Eq)]
pub struct Field {
    pub key: String,
    pub value: String,
}

/// A record as mathematics: its pairs, each a key and a value.
pub type Pairs = Seq<(Seq<char>, Seq<char>)>;

/// The pairs that a row of fields holds.
pub open spec fn pairs_of(fields: Seq<Field>) -> Pairs {
    Seq::new(fields.len(), |i: int| (fields[i].key@, fields[i].value@))
}

/// The escapes in `s` between `from` and `to` are whole: every backslash
/// that opens one is followed, before `to`, by an ASCII byte.
pub open spec fn escapes_whole(s: Seq<u8>, from: int, to: int) -> bool
    decreases to - from,
{
    if from >= to {
        true
    } else if s[from] == BACKSLASH {
        from + 1 < to && s[from + 1] < 0x80 && escapes_whole(s, from + 2, to)
    } else {
        escapes_whole(s, from + 1, to)
    }
}

/// The escapes of one pair are whole: those of its key, which ends at the
/// first `=`, and those of its value, which is the rest.
pub open spec fn pair_whole(pair: Seq<u8>) -> bool {
    let split = run_len(pair, EQUALS, 0) as int;
    escapes_whole(pair, 0, split) && escapes_whole(pair, split + 1, pair.len() as int)
}

/// A record is well escaped where the escapes of all its pairs, which
/// blanks set apart, are whole. No key or value then ends inside an escape,
/// and no escape takes a character apart.
pub open spec fn well_escaped(record: Seq<u8>) -> bool {
    forall|i: int|
        0 <= i < parts_of(record, SPACE).len() ==> pair_whole(#[trigger] parts_of(record, SPACE)[i])
}

/// Whether the escapes in `bytes` between `from` and `to` are whole.
fn whole_between(bytes: &[u8], from: usize, to: usize) -> (res: bool)
    requires
        from <= to <= bytes.len(),
    ensures
        res == escapes_whole(bytes@, from as int, to as int),
{
    let mut i: usize = from;
    while i < to
        invariant
            from <= i <= to <= bytes.len(),
            escapes_whole(bytes@, from as int, to as int) == escapes_whole(
                bytes@,
                i as int,
                to as int,
            ),
        decreases to - i,
    {
        if bytes[i] == BACKSLASH {
            if to - i < 2 || bytes[i + 1] >= 0x80 {
                return false;
            }
            i += 2;
        } else {
            i += 1;
        }
    }
    true
}

/// Whether a record is well escaped.
pub fn is_well_escaped(record: &str) -> (res: bool)
    ensures
        res == well_escaped(record.spec_bytes()),
{
    let pairs = split_parts(record, SPACE);
    let ghost parts = parts_of(record.spec_bytes(), SPACE);
    let mut i: usize = 0;
    while i < pairs.len()
        invariant
            i <= pairs.len(),
            parts == parts_of(record.spec_bytes(), SPACE),
            pairs.len() == parts.len(),
            forall|k: int| 0 <= k < pairs.len() ==> (#[trigger] pairs[k]).spec_bytes() == parts[k],
            forall|k: int| 0 <= k < i ==> pair_whole(#[trigger] parts[k]),
        decreases pairs.len() - i,
    {
        let bytes = pairs[i].as_bytes();
        let split = run_end(bytes, EQUALS, 0);
        let whole = whole_between(bytes, 0, split) && (split == bytes.len() || whole_between(
            bytes,
            split + 1,
            bytes.len(),
        ));
        if !whole {
            assert(!pair_whole(parts[i as int]));
            return false;
        }
        assert(pair_whole(parts[i as int]));
        i += 1;
    }
    true
}

/// What the `serde_teamspeak_querystring` crate reads from a record, asked
/// for a map from text to text: the pairs in the order of their keys, or
/// nothing where it refuses the record.
pub uninterp spec fn decoded_pairs(record: Seq<char>) -> Option<Pairs>;

/// Calls `serde_teamspeak_querystring::from_str` for an ordered map from
/// text to text and hands its content out as fields. The contract names the
/// outcome [`decoded_pairs`]; nothing is claimed of what the pairs are.
///
/// The record must be well escaped. The crate undoes the escapes of every
/// key and value, and on a key or value that ends inside an escape it can
/// read past the end and panic; so it can where an escape has taken a
/// character apart and it reports the broken text.
#[verifier::external_body]
fn decode_pairs(record: &str) -> (res: Result<Vec<Field>, serde_teamspeak_querystring::Error>)
    requires
        well_escaped(record.spec_bytes()),
    ensures
        match res {
            Ok(fields) => decoded_pairs(record@) == Some(pairs_of(fields@)),
            Err(_) => decoded_pairs(record@) is None,
        },
{
    let map = serde_teamspeak_querystring::from_str::<
        std::collections::BTreeMap<String, String>,
    >(record)?;
    Ok(map.into_iter().map(|(key, value)| Field { key, value }).collect())
}

/// Why a record could not be read.
#[derive(Debug, Clone, Copy, PartialEq, Eq, Structural)]
pub enum DecodeError {
    /// The record is not well escaped, or the pair grammar refused it.
    Malformed,
    /// A field that the schema requires is absent.
    MissingField,
    /// A numeric field holds no number text, or a number out of range.
    InvalidNumber,
    /// The line lacks the token that introduces its record.
    MissingToken,
}

/// The value of the first pair with the given key.
pub open spec fn value_of(pairs: Pairs, key: Seq<char>) -> Option<Seq<char>>
    decreases pairs.len(),
{
    if pairs.len() == 0 {
        None
    } else if pairs[0].0 == key {
        Some(pairs[0].1)
    } else {
        value_of(pairs.drop_first(), key)
    }
}

/// A required text field: its value, or the error for its absence.
pub open spec fn text_field(pairs: Pairs, key: Seq<char>) -> Result<Seq<char>, DecodeError> {
    match value_of(pairs, key) {
        Some(v) => Ok(v),
        None => Err(DecodeError::MissingField),
    }
}

/// An optional text field: its value, or the empty text.
pub open spec fn text_field_or_empty(pairs: Pairs, key: Seq<char>) -> Seq<char> {
    match value_of(pairs, key) {
        Some(v) => v,
        None => Seq::empty(),
    }
}

/// A required numeric field with bounds: its number, or the error for its
/// absence, or the error for a value that is no number within the bounds.
pub open spec fn number_field(pairs: Pairs, key: Seq<char>, lo: int, hi: int) -> Result<
    int,
    DecodeError,
> {
    match value_of(pairs, key) {
        None => Err(DecodeError::MissingField),
        Some(v) => match number_within(encode_utf8(v), lo, hi) {
            Some(n) => Ok(n),
            None => Err(DecodeError::InvalidNumber),
        },
    }
}

/// The value of the first field with the given key.
pub fn find_value<'a>(fields: &'a Vec<Field>, key: &str) -> (res: Option<&'a str>)
    ensures
        match res {
            Some(v) => value_of(pairs_of(fields@), key@) == Some(v@),
            None => value_of(pairs_of(fields@), key@) is None,
        },
{
    let ghost pairs = pairs_of(fields@);
    let mut i: usize = 0;
    assert(pairs.subrange(0, pairs.len() as int) =~= pairs);
    while i < fields.len()
        invariant
            i <= fields.len(),
            pairs == pairs_of(fields@),
            value_of(pairs, key@) == value_of(pairs.subrange(i as int, pairs.len() as int), key@),
        decreases fields.len() - i,
    {
        let ghost rest = pairs.subrange(i as int, pairs.len() as int);
        assert(rest[0] == pairs[i as int]);
        if same_text(fields[i].key.as_str(), key) {
            return Some(fields[i].value.as_str());
        }
        assert(rest.drop_first() =~= pairs.subrange(i + 1, pairs.len() as int));
        i += 1;
    }
    None
}

/// Reads a required text field.
pub fn read_text(fields: &Vec<Field>, key: &str) -> (res: Result<String, DecodeError>)
    ensures
        match res {
            Ok(v) => text_field(pairs_of(fields@), key@) == Ok::<Seq<char>, DecodeError>(v@),
            Err(e) => text_field(pairs_of(fields@), key@) == Err::<Seq<char>, DecodeError>(e),
        },
{
    match find_value(fields, key) {
        Some(v) => Ok(v.to_owned()),
        None => Err(DecodeError::MissingField),
    }
}

/// Reads an optional text field; an absent one reads as the empty text.
pub fn read_text_or_empty(fields: &Vec<Field>, key: &str) -> (res: String)
    ensures
        res@ == text_field_or_empty(pairs_of(fields@), key@),
{
    match find_value(fields, key) {
        Some(v) => v.to_owned(),
        None => String::new(),
    }
}

/// Reads a required field as a 32-bit number.
pub fn read_number_i32(fields: &Vec<Field>, key: &str) -> (res: Result<i32, DecodeError>)
    ensures
        match res {
            Ok(n) => number_field(pairs_of(fields@), key@, i32::MIN as int, i32::MAX as int)
                == Ok::<int, DecodeError>(n as int),
            Err(e) => number_field(pairs_of(fields@), key@, i32::MIN as int, i32::MAX as int)
                == Err::<int, DecodeError>(e),
        },
{
    match find_value(fields, key) {
        None => Err(DecodeError::MissingField),
        Some(v) => match read_i32(v) {
            Some(n) => Ok(n),
            None => Err(DecodeError::InvalidNumber),
        },
    }
}

/// Reads a required field as a 64-bit number.
pub fn read_number_i64(fields: &Vec<Field>, key: &str) -> (res: Result<i64, DecodeError>)
    ensures
        match res {
            Ok(n) => number_field(pairs_of(fields@), key@, i64::MIN as int, i64::MAX as int)
                == Ok::<int, DecodeError>(n as int),
            Err(e) => number_field(pairs_of(fields@), key@, i64::MIN as int, i64::MAX as int)
                == Err::<int, DecodeError>(e),
        },
{
    match find_value(fields, key) {
        None => Err(DecodeError::MissingField),
        Some(v) => match read_i64(v) {
            Some(n) => Ok(n),
            None => Err(DecodeError::InvalidNumber),
        },
    }
}

/// A record type: something that a row of pairs can be read as.
///
/// `schema` says in mathematics what a row of pairs amounts to; `from_fields`
/// computes it. Unknown keys are passed over.
pub trait FromQueryString: Sized + View {
    /// What a row of pairs reads as: the record's content, or why not.
    spec fn schema(pairs: Pairs) -> Result<Self::V, DecodeError>;

    /// Reads a record from decoded fields.
    fn from_fields(fields: &Vec<Field>) -> (res: Result<Self, DecodeError>)
        ensures
            match res {
                Ok(v) => Self::schema(pairs_of(fields@)) == Ok::<Self::V, DecodeError>(v@),
                Err(e) => Self::schema(pairs_of(fields@)) == Err::<Self::V, DecodeError>(e),
            },
    ;

    /// Reads a record from its text.
    fn from_query(data: &str) -> (res: Result<Self, DecodeError>)
        ensures
            !well_escaped(data.spec_bytes()) ==> res == Err::<Self, DecodeError>(
                DecodeError::Malformed,
            ),
            well_escaped(data.spec_bytes()) ==> match decoded_pairs(data@) {
                None => res == Err::<Self, DecodeError>(DecodeError::Malformed),
                Some(pairs) => match res {
                    Ok(v) => Self::schema(pairs) == Ok::<Self::V, DecodeError>(v@),
                    Err(e) => Self::schema(pairs) == Err::<Self::V, DecodeError>(e),
                },
            },
    {
        if !is_well_escaped(data) {
            return Err(DecodeError::Malformed);
        }
        match decode_pairs(data) {
            Err(_) => Err(DecodeError::Malformed),
            Ok(fields) => Self::from_fields(&fields),
        }
    }
}

/// What a record's text reads as: `Malformed` where the record is not well
/// escaped or the pair grammar yields no pairs for it, else the schema
/// applied to the pairs that the grammar yields.
pub open spec fn record_of<T: FromQueryString>(record: Seq<char>) -> Result<T::V, DecodeError> {
    if !well_escaped(encode_utf8(record)) {
        Err(DecodeError::Malformed)
    } else {
        match decoded_pairs(record) {
            None => Err(DecodeError::Malformed),
            Some(pairs) => T::schema(pairs),
        }
    }
}

/// A record read without a fixed schema: it keeps all its pairs, and its
/// fields are read from it by name.
#[derive(Debug, Clone, PartialEq, Eq)]
pub struct DelimitedRecord {
    fields: Vec<Field>,
}

impl View for DelimitedRecord {
    type V = Pairs;

    closed spec fn view(&self) -> Pairs {
        pairs_of(self.fields@)
    }
}

impl DelimitedRecord {
    /// The number of pairs.
    pub fn len(&self) -> (res: usize)
        ensures
            res == self@.len(),
    {
        self.fields.len()
    }

    /// The value of a field, where the record has it.
    pub fn text(&self, key: &str) -> (res: Option<&str>)
        ensures
            match res {
                Some(v) => value_of(self@, key@) == Some(v@),
                None => value_of(self@, key@) is None,
            },
    {
        find_value(&self.fields, key)
    }

    /// A field as a 64-bit number.
    pub fn number(&self, key: &str) -> (res: Result<i64, DecodeError>)
        ensures
            match res {
                Ok(n) => number_field(self@, key@, i64::MIN as int, i64::MAX as int) == Ok::<
                    int,
                    DecodeError,
                >(n as int),
                Err(e) => number_field(self@, key@, i64::MIN as int, i64::MAX as int) == Err::<
                    int,
                    DecodeError,
                >(e),
            },
    {
        read_number_i64(&self.fields, key)
    }
}

impl FromQueryString for DelimitedRecord {
    /// Every row of pairs is a record; none is refused.
    open spec fn schema(pairs: Pairs) -> Result<Pairs, DecodeError> {
        Ok(pairs)
    }

    fn from_fields(fields: &Vec<Field>) -> (res: Result<Self, DecodeError>) {
        let mut kept: Vec<Field> = Vec::new();
        let mut i: usize = 0;
        while i < fields.len()
            invariant
                i <= fields.len(),
                kept.len() == i,
                forall|k: int|
                    0 <= k < i ==> (#[trigger] kept[k]).key@ == fields[k].key@ && kept[k].value@
                        == fields[k].value@,
            decreases fields.len() - i,
        {
            let field = &fields[i];
            kept.push(Field { key: field.key.clone(), value: field.value.clone() });
            i += 1;
        }
        assert(pairs_of(kept@) =~= pairs_of(fields@));
        Ok(DelimitedRecord { fields: kept })
    }
}

} // verus!
