//! Frames: gathering the bytes of one response and reading what it holds.
//!
//! A response is a block of lines. Data lines come first; one status line,
//! introduced by `error `, closes it. The protocol sends no lengths, so the
//! end of a frame is recognised from the way the bytes arrive and from the
//! text gathered so far.

use vstd::prelude::*;
use vstd::string::*;
use vstd::utf8::*;
use crate::query_status::{status_of_line, QueryStatus, StatusView};
use crate::querystring::{record_of, DecodeError, FromQueryString};
use crate::text::{
    contains, ends_with, has, has_prefix, has_suffix, lemma_lines_join, lemma_text_is_utf8,
    lines_of, parts_of, split_lines, split_parts, starts_with, trim, trimmed, BAR, LF,
};

verus! {

/// The capacity of the buffer that one read fills.
pub const BUFFER_SIZE: usize = 512;

/// What `String::from_utf8_lossy` makes of a row of bytes.
pub uninterp spec fn lossy_text(bytes: Seq<u8>) -> Seq<char>;

/// Calls `String::from_utf8_lossy`. The outcome is named [`lossy_text`];
/// beyond the name the contract claims only what the function documents of
/// well-formed input: that it comes back as it is.
#[verifier::external_body]
fn decode_lossy(chunk: &[u8]) -> (res: String)
    ensures
        res@ == lossy_text(chunk@),
        valid_utf8(chunk@) ==> res@ == decode_utf8(chunk@),
{
    String::from_utf8_lossy(chunk).into_owned()
}

/// Whether a frame is complete once a chunk of `chunk_len` bytes has been
/// added and the gathered text is `text`: the chunk did not fill the read
/// buffer, or the text holds the status marker and ends with the frame
/// terminator.
pub open spec fn frame_complete(chunk_len: int, text: Seq<u8>) -> bool {
    chunk_len < BUFFER_SIZE || (has(text, "error id=".spec_bytes()) && has_suffix(
        text,
        "\n\r".spec_bytes(),
    ))
}

/// The text of a frame as it is gathered from chunks.
pub struct FrameBuffer {
    text: String,
}

impl View for FrameBuffer {
    type V = Seq<char>;

    closed spec fn view(&self) -> Seq<char> {
        self.text@
    }
}

impl FrameBuffer {
    /// An empty buffer.
    pub fn new() -> (res: Self)
        ensures
            res@ == Seq::<char>::empty(),
    {
        Self { text: String::new() }
    }

    /// Adds one chunk as it was read, decoded leniently, and says whether
    /// the frame is complete with it.
    pub fn accumulate(&mut self, chunk: &[u8]) -> (complete: bool)
        ensures
            final(self)@ == old(self)@ + lossy_text(chunk@),
            valid_utf8(chunk@) ==> final(self)@ == old(self)@ + decode_utf8(chunk@),
            complete == frame_complete(chunk@.len() as int, encode_utf8(final(self)@)),
    {
        let piece = decode_lossy(chunk);
        self.extend(piece.as_str(), chunk.len())
    }

    /// Adds the text of a chunk that had `chunk_len` bytes, and says whether
    /// the frame is complete with it.
    pub fn extend(&mut self, piece: &str, chunk_len: usize) -> (complete: bool)
        ensures
            final(self)@ == old(self)@ + piece@,
            complete == frame_complete(chunk_len as int, encode_utf8(final(self)@)),
    {
        self.text.append(piece);
        if chunk_len < BUFFER_SIZE {
            return true;
        }
        let bytes = self.text.as_str().as_bytes();
        contains(bytes, "error id=".as_bytes()) && ends_with(bytes, "\n\r".as_bytes())
    }

    /// The text gathered so far.
    pub fn text(&self) -> (res: &str)
        ensures
            res@ == self@,
    {
        self.text.as_str()
    }

    /// Gives the gathered text away.
    pub fn into_text(self) -> (res: String)
        ensures
            res@ == self@,
    {
        self.text
    }
}

/// A status line: a line whose trimmed form begins with `error `.
pub open spec fn is_status_line(line: Seq<u8>) -> bool {
    has_prefix(trimmed(line), "error ".spec_bytes())
}

/// The index of the first status line at or after `from`.
pub open spec fn status_index_from(lines: Seq<Seq<u8>>, from: int) -> Option<int>
    decreases lines.len() - from,
{
    if from < 0 || from >= lines.len() {
        None
    } else if is_status_line(lines[from]) {
        Some(from)
    } else {
        status_index_from(lines, from + 1)
    }
}

/// The index of the first status line.
pub open spec fn status_index(lines: Seq<Seq<u8>>) -> Option<int> {
    status_index_from(lines, 0)
}

/// `status_index_from` yields the least index of a status line, and none
/// only where no line from `from` on is one.
pub proof fn lemma_status_index(lines: Seq<Seq<u8>>, from: int)
    requires
        0 <= from,
    ensures
        match status_index_from(lines, from) {
            Some(k) => from <= k < lines.len() && is_status_line(lines[k]) && forall|j: int|
                from <= j < k ==> !is_status_line(#[trigger] lines[j]),
            None => forall|j: int| from <= j < lines.len() ==> !is_status_line(#[trigger] lines[j]),
        },
    decreases lines.len() - from,
{
    if from < lines.len() && !is_status_line(lines[from]) {
        lemma_status_index(lines, from + 1);
    }
}

/// The status that a block carries: that of its first status line; none
/// where it has no status line; the error where that line cannot be read.
pub open spec fn status_of_block(block: Seq<u8>) -> Result<Option<StatusView>, DecodeError> {
    let lines = lines_of(block);
    match status_index(lines) {
        None => Ok(None),
        Some(k) => match status_of_line(lines[k]) {
            Ok(status) => Ok(Some(status)),
            Err(e) => Err(e),
        },
    }
}

/// Whether `line` is a status line.
pub fn status_line(line: &str) -> (res: bool)
    ensures
        res == is_status_line(line.spec_bytes()),
{
    starts_with(trim(line).as_bytes(), "error ".as_bytes())
}

/// Finds the status of a response block.
pub fn decode_status(content: &str) -> (res: Result<Option<QueryStatus>, DecodeError>)
    ensures
        match res {
            Ok(Some(status)) => status_of_block(content.spec_bytes()) == Ok::<
                Option<StatusView>,
                DecodeError,
            >(Some(status@)),
            Ok(None) => status_of_block(content.spec_bytes()) == Ok::<
                Option<StatusView>,
                DecodeError,
            >(None),
            Err(e) => status_of_block(content.spec_bytes()) == Err::<
                Option<StatusView>,
                DecodeError,
            >(e),
        },
{
    let lines = split_lines(content);
    let ghost ls = lines_of(content.spec_bytes());
    let mut k: usize = 0;
    while k < lines.len()
        invariant
            k <= lines.len(),
            ls == lines_of(content.spec_bytes()),
            lines.len() == ls.len(),
            forall|i: int| 0 <= i < lines.len() ==> (#[trigger] lines[i]).spec_bytes() == ls[i],
            status_index_from(ls, k as int) == status_index(ls),
        decreases lines.len() - k,
    {
        let line = lines[k];
        if status_line(line) {
            return match QueryStatus::try_from(line) {
                Ok(status) => Ok(Some(status)),
                Err(e) => Err(e),
            };
        }
        k += 1;
    }
    Ok(None)
}

/// The data line of a block: its first line, where that line precedes the
/// status line. A block without a status line, or one that begins with its
/// status line, has none.
pub open spec fn data_line(block: Seq<u8>) -> Option<Seq<u8>> {
    let lines = lines_of(block);
    match status_index(lines) {
        Some(k) => if k > 0 {
            Some(lines[0])
        } else {
            None
        },
        None => None,
    }
}

/// What a row of segments reads as in the schema of `T`: each segment's
/// record, in order, or the error of the first segment that cannot be read.
pub open spec fn records_of<T: FromQueryString>(segments: Seq<Seq<u8>>) -> Result<
    Seq<T::V>,
    DecodeError,
>
    decreases segments.len(),
{
    if segments.len() == 0 {
        Ok(Seq::empty())
    } else {
        match records_of::<T>(segments.drop_last()) {
            Err(e) => Err(e),
            Ok(done) => match record_of::<T>(decode_utf8(segments.last())) {
                Err(e) => Err(e),
                Ok(record) => Ok(done.push(record)),
            },
        }
    }
}

/// The records that a block yields in the schema of `T`. Only a block whose
/// status reports success yields any: they are the segments that `|` sets
/// apart in its data line.
pub open spec fn records_of_block<T: FromQueryString>(block: Seq<u8>) -> Result<
    Seq<T::V>,
    DecodeError,
> {
    match status_of_block(block) {
        Err(e) => Err(e),
        Ok(None) => Ok(Seq::empty()),
        Ok(Some(status)) => if status.code != 0 {
            Ok(Seq::empty())
        } else {
            match data_line(block) {
                None => Ok(Seq::empty()),
                Some(line) => records_of::<T>(parts_of(line, BAR)),
            }
        },
    }
}

/// The contents of a row of records.
pub open spec fn views_of<T: View>(records: Seq<T>) -> Seq<T::V> {
    Seq::new(records.len(), |i: int| records[i]@)
}

/// Reads the records of a data line: one for each segment that `|` sets
/// apart, in order.
pub fn decode_records<T: FromQueryString>(line: &str) -> (res: Result<Vec<T>, DecodeError>)
    ensures
        match res {
            Ok(records) => records_of::<T>(parts_of(line.spec_bytes(), BAR)) == Ok::<
                Seq<T::V>,
                DecodeError,
            >(views_of(records@)),
            Err(e) => records_of::<T>(parts_of(line.spec_bytes(), BAR)) == Err::<
                Seq<T::V>,
                DecodeError,
            >(e),
        },
{
    let segments = split_parts(line, BAR);
    let ghost parts = parts_of(line.spec_bytes(), BAR);
    let mut out: Vec<T> = Vec::new();
    let mut i: usize = 0;
    assert(views_of(out@) =~= Seq::<T::V>::empty());
    assert(parts.subrange(0, 0).len() == 0);
    while i < segments.len()
        invariant
            i <= segments.len(),
            parts == parts_of(line.spec_bytes(), BAR),
            segments.len() == parts.len(),
            forall|k: int|
                0 <= k < segments.len() ==> (#[trigger] segments[k]).spec_bytes() == parts[k],
            records_of::<T>(parts.subrange(0, i as int)) == Ok::<Seq<T::V>, DecodeError>(
                views_of(out@),
            ),
        decreases segments.len() - i,
    {
        let segment = segments[i];
        let ghost head = parts.subrange(0, i + 1);
        proof {
            lemma_text_is_utf8(segment);
            assert(head.drop_last() =~= parts.subrange(0, i as int));
            assert(head.last() == parts[i as int]);
        }
        match T::from_query(segment) {
            Err(e) => {
                proof {
                    assert(record_of::<T>(decode_utf8(head.last())) == Err::<T::V, DecodeError>(e));
                    assert(records_of::<T>(head) == Err::<Seq<T::V>, DecodeError>(e));
                    lemma_records_fail::<T>(parts, i + 1);
                }
                return Err(e);
            },
            Ok(record) => {
                let ghost before = views_of(out@);
                out.push(record);
                assert(views_of(out@) =~= before.push(record@));
                assert(record_of::<T>(decode_utf8(head.last())) == Ok::<T::V, DecodeError>(
                    record@,
                ));
                assert(records_of::<T>(head) == Ok::<Seq<T::V>, DecodeError>(views_of(out@)));
            },
        }
        i += 1;
    }
    assert(parts.subrange(0, i as int) =~= parts);
    Ok(out)
}

/// Where the first `k` segments cannot be read, the whole row cannot, and
/// for the same reason.
proof fn lemma_records_fail<T: FromQueryString>(segments: Seq<Seq<u8>>, k: int)
    requires
        0 <= k <= segments.len(),
        records_of::<T>(segments.subrange(0, k)) is Err,
    ensures
        records_of::<T>(segments) == records_of::<T>(segments.subrange(0, k)),
    decreases segments.len() - k,
{
    if k == segments.len() {
        assert(segments.subrange(0, k) =~= segments);
    } else {
        let longer = segments.subrange(0, k + 1);
        assert(longer.drop_last() =~= segments.subrange(0, k));
        lemma_records_fail::<T>(segments, k + 1);
    }
}

/// Reads the records of a response block. A block whose status is absent or
/// reports a failure yields none, whatever its data lines hold.
pub fn extract_records<T: FromQueryString>(content: &str) -> (res: Result<Vec<T>, DecodeError>)
    ensures
        match res {
            Ok(records) => records_of_block::<T>(content.spec_bytes()) == Ok::<
                Seq<T::V>,
                DecodeError,
            >(views_of(records@)),
            Err(e) => records_of_block::<T>(content.spec_bytes()) == Err::<
                Seq<T::V>,
                DecodeError,
            >(e),
        },
{
    match decode_status(content) {
        Err(e) => Err(e),
        Ok(None) => {
            let none: Vec<T> = Vec::new();
            assert(views_of(none@) =~= Seq::<T::V>::empty());
            Ok(none)
        },
        Ok(Some(status)) => {
            let lines = split_lines(content);
            proof {
                let ls = lines_of(content.spec_bytes());
                assert(status_index(ls) is Some);
                if lines.len() > 0 {
                    assert(lines[0].spec_bytes() == ls[0]);
                    if !is_status_line(ls[0]) {
                        lemma_status_index(ls, 1);
                        assert(status_index(ls) == status_index_from(ls, 1));
                    }
                }
            }
            if !status.is_ok() || lines.len() == 0 || status_line(lines[0]) {
                let none: Vec<T> = Vec::new();
                assert(views_of(none@) =~= Seq::<T::V>::empty());
                Ok(none)
            } else {
                decode_records(lines[0])
            }
        },
    }
}

/// Lines that are no status lines do not change which status line comes
/// first after them.
proof fn lemma_status_index_join(head: Seq<Seq<u8>>, tail: Seq<Seq<u8>>, from: int)
    requires
        0 <= from <= head.len(),
        forall|i: int| 0 <= i < head.len() ==> !is_status_line(#[trigger] head[i]),
    ensures
        status_index_from(head + tail, from) == match status_index(tail) {
            Some(k) => Some(head.len() + k),
            None => None,
        },
    decreases head.len() - from,
{
    if from < head.len() {
        assert((head + tail)[from] == head[from]);
        lemma_status_index_join(head, tail, from + 1);
    } else {
        lemma_status_index_shift(head, tail, 0);
    }
}

proof fn lemma_status_index_shift(head: Seq<Seq<u8>>, tail: Seq<Seq<u8>>, j: int)
    requires
        0 <= j <= tail.len(),
    ensures
        status_index_from(head + tail, head.len() + j) == match status_index_from(tail, j) {
            Some(k) => Some(head.len() + k),
            None => None,
        },
    decreases tail.len() - j,
{
    if j < tail.len() {
        assert((head + tail)[head.len() + j] == tail[j]);
        lemma_status_index_shift(head, tail, j + 1);
    }
}

/// Data lines do not touch the status: a block reads as the same status
/// with any number of whole lines before it, so long as none of them is a
/// status line itself.
pub proof fn lemma_status_after_data_lines(data: Seq<u8>, block: Seq<u8>)
    requires
        data.len() == 0 || data.last() == LF,
        forall|i: int|
            0 <= i < lines_of(data).len() ==> !is_status_line(#[trigger] lines_of(data)[i]),
    ensures
        status_of_block(data + block) == status_of_block(block),
{
    let head = lines_of(data);
    let tail = lines_of(block);
    lemma_lines_join(data, block, 0);
    assert(lines_of(data + block) == head + tail);
    lemma_status_index_join(head, tail, 0);
    lemma_status_index(tail, 0);
    if let Some(k) = status_index(tail) {
        assert((head + tail)[head.len() + k] == tail[k]);
    }
}

/// A row of segments that reads well yields one record for each segment,
/// in the order of the segments.
pub proof fn lemma_records_in_order<T: FromQueryString>(segments: Seq<Seq<u8>>)
    requires
        records_of::<T>(segments) is Ok,
    ensures
        records_of::<T>(segments)->Ok_0.len() == segments.len(),
        forall|i: int|
            0 <= i < segments.len() ==> record_of::<T>(decode_utf8(#[trigger] segments[i]))
                == Ok::<T::V, DecodeError>(records_of::<T>(segments)->Ok_0[i]),
    decreases segments.len(),
{
    if segments.len() > 0 {
        let front = segments.drop_last();
        lemma_records_in_order::<T>(front);
        assert forall|i: int| 0 <= i < segments.len() implies record_of::<T>(
            decode_utf8(#[trigger] segments[i]),
        ) == Ok::<T::V, DecodeError>(records_of::<T>(segments)->Ok_0[i]) by {
            if i < front.len() {
                assert(front[i] == segments[i]);
            }
        }
    }
}

/// A row of segments reads well where each of its segments does.
pub proof fn lemma_records_read<T: FromQueryString>(segments: Seq<Seq<u8>>)
    requires
        forall|i: int|
            0 <= i < segments.len() ==> record_of::<T>(decode_utf8(#[trigger] segments[i])) is Ok,
    ensures
        records_of::<T>(segments) is Ok,
    decreases segments.len(),
{
    if segments.len() > 0 {
        let front = segments.drop_last();
        assert forall|i: int| 0 <= i < front.len() implies record_of::<T>(
            decode_utf8(#[trigger] front[i]),
        ) is Ok by {
            assert(front[i] == segments[i]);
        }
        lemma_records_read::<T>(front);
        assert(segments.last() == segments[segments.len() - 1]);
    }
}

/// A block whose status reports success and whose data line has segments
/// that all read well yields one record for each segment of that line, in
/// the order of the segments.
pub proof fn lemma_success_yields_records<T: FromQueryString>(block: Seq<u8>, line: Seq<u8>)
    requires
        status_of_block(block) matches Ok(Some(status)) && status.code == 0,
        data_line(block) == Some(line),
        forall|i: int|
            0 <= i < parts_of(line, BAR).len() ==> record_of::<T>(
                decode_utf8(#[trigger] parts_of(line, BAR)[i]),
            ) is Ok,
    ensures
        records_of_block::<T>(block) matches Ok(records) && records.len() == parts_of(
            line,
            BAR,
        ).len() && forall|i: int|
            0 <= i < records.len() ==> record_of::<T>(decode_utf8(parts_of(line, BAR)[i]))
                == Ok::<T::V, DecodeError>(#[trigger] records[i]),
{
    lemma_records_read::<T>(parts_of(line, BAR));
    lemma_records_in_order::<T>(parts_of(line, BAR));
}

/// A block whose status reports a failure yields no records, whatever its
/// data lines hold.
pub proof fn lemma_failure_yields_no_records<T: FromQueryString>(block: Seq<u8>)
    requires
        status_of_block(block) matches Ok(Some(status)) && status.code != 0,
    ensures
        records_of_block::<T>(block) == Ok::<Seq<T::V>, DecodeError>(Seq::empty()),
{
}

/// Reading is a function of the text: two texts with the same characters
/// read as the same status and the same records.
pub proof fn lemma_reading_repeats<T: FromQueryString>(first: &str, second: &str)
    requires
        first@ == second@,
    ensures
        status_of_block(first.spec_bytes()) == status_of_block(second.spec_bytes()),
        records_of_block::<T>(first.spec_bytes()) == records_of_block::<T>(second.spec_bytes()),
{
}

} // verus!
