//! The commands that the client sends, as text.
//!
//! Every command is one line that ends with the frame terminator, a line
//! feed followed by a carriage return. Its first word is its verb.

use vstd::prelude::*;
use vstd::string::*;
use vstd::utf8::*;
use crate::decimal::{decimal_text, lemma_decimal_begins, write_i64};
use crate::text::{
    before_first, drop_spaces, ends_with, has_suffix, index_of, is_ascii_space, lemma_ascii_bytes,
    lemma_bytes_join, lemma_drop_spaces_keeps, lemma_index_from, lemma_suffix_of_join, occurs_at,
    skip_spaces, space_width, space_width_before, split_once, trim, trimmed, CR, LF, SPACE,
};

verus! {

/// The verb of a command: its trimmed text up to the first blank, or all of
/// it where it holds no blank.
pub open spec fn method_of(payload: Seq<u8>) -> Seq<u8> {
    match before_first(trimmed(payload), " ".spec_bytes()) {
        Some(verb) => verb,
        None => trimmed(payload),
    }
}

/// A byte of a word: ASCII and no white space.
pub open spec fn is_word_byte(b: u8) -> bool {
    b < 0x80 && !is_ascii_space(b)
}

/// A text that begins with a word of `n` bytes, a blank and, somewhere after
/// it, another byte of a word has that word for its verb.
pub proof fn lemma_method_of_word(b: Seq<u8>, n: int, anchor: int)
    requires
        0 < n < anchor < b.len(),
        forall|i: int| 0 <= i < n ==> is_word_byte(#[trigger] b[i]),
        b[n] == SPACE,
        is_word_byte(b[anchor]),
    ensures
        method_of(b) == b.subrange(0, n),
{
    reveal_strlit(" ");
    lemma_ascii_bytes(" "@);
    let sp = " ".spec_bytes();
    assert(sp =~= seq![SPACE]);
    assert(is_word_byte(b[0]));
    assert(space_width(b, 0) == 0);
    assert(skip_spaces(b, 0) == 0);
    lemma_drop_spaces_keeps(b, 0, b.len() as int, anchor);
    let z = drop_spaces(b, 0, b.len() as int);
    let t = b.subrange(0, z);
    assert(trimmed(b) == t);
    lemma_index_from(t, sp, 0);
    assert(occurs_at(t, sp, n)) by {
        assert(t.subrange(n, n + 1) =~= sp);
    }
    assert forall|j: int| 0 <= j < n implies !occurs_at(t, sp, j) by {
        if occurs_at(t, sp, j) {
            assert(t.subrange(j, j + 1)[0] == sp[0]);
            assert(is_word_byte(b[j]));
        }
    }
    assert(index_of(t, sp) == Some(n));
    assert(t.subrange(0, n) =~= b.subrange(0, n));
}

/// A text that is one word of `n` bytes and the frame terminator has that
/// word for its verb.
pub proof fn lemma_method_of_bare(b: Seq<u8>, n: int)
    requires
        0 < n,
        b.len() == n + 2,
        forall|i: int| 0 <= i < n ==> is_word_byte(#[trigger] b[i]),
        b[n] == LF,
        b[n + 1] == CR,
    ensures
        method_of(b) == b.subrange(0, n),
{
    reveal_strlit(" ");
    lemma_ascii_bytes(" "@);
    let sp = " ".spec_bytes();
    assert(sp =~= seq![SPACE]);
    assert(is_word_byte(b[0]));
    assert(space_width(b, 0) == 0);
    assert(skip_spaces(b, 0) == 0);
    assert(is_word_byte(b[n - 1]));
    assert(space_width_before(b, n) == 0);
    assert(drop_spaces(b, 0, n) == n);
    assert(space_width_before(b, n + 1) == 1);
    assert(drop_spaces(b, 0, n + 1) == n);
    assert(space_width_before(b, n + 2) == 1);
    assert(drop_spaces(b, 0, n + 2) == n);
    let t = b.subrange(0, n);
    assert(trimmed(b) == t);
    lemma_index_from(t, sp, 0);
    assert forall|j: int| 0 <= j implies !occurs_at(t, sp, j) by {
        if occurs_at(t, sp, j) {
            assert(t.subrange(j, j + 1)[0] == sp[0]);
            assert(is_word_byte(b[j]));
        }
    }
    assert(index_of(t, sp) is None);
}

/// A command ends with the frame terminator.
pub open spec fn is_terminated(payload: Seq<u8>) -> bool {
    has_suffix(payload, "\n\r".spec_bytes())
}

/// The address of the server as the connection is asked for it: the host,
/// a colon, the port.
pub fn endpoint(server: &str, port: u16) -> (res: String)
    ensures
        res@ == server@ + ":"@ + decimal_text(port as int),
{
    let mut out = server.to_owned();
    out.append(":");
    write_i64(&mut out, port as i64);
    out
}

/// The command that presents the API key.
pub fn login_payload(api_key: &str) -> (res: String)
    ensures
        res@ == "auth apikey="@ + api_key@ + "\n\r"@,
        is_terminated(encode_utf8(res@)),
        method_of(encode_utf8(res@)) == "auth".spec_bytes(),
{
    let mut out = "auth apikey=".to_owned();
    out.append(api_key);
    out.append("\n\r");
    proof {
        lemma_suffix_of_join("auth apikey="@ + api_key@, "\n\r"@);
        let head = "auth apikey="@;
        let b = encode_utf8(out@);
        reveal_strlit("auth apikey=");
        reveal_strlit("auth");
        assert(out@ =~= head + (api_key@ + "\n\r"@));
        lemma_bytes_join(head, api_key@ + "\n\r"@);
        lemma_ascii_bytes(head);
        lemma_ascii_bytes("auth"@);
        assert forall|i: int| 0 <= i < 12 implies b[i] == head[i] as u8 by {
            assert(b[i] == encode_utf8(head)[i]);
        }
        lemma_method_of_word(b, 4, 5);
        assert(b.subrange(0, 4) =~= "auth".spec_bytes());
    }
    out
}

/// The command that subscribes to poke notifications on every server
/// connection.
pub fn register_events_payload() -> (res: String)
    ensures
        res@ == "clientnotifyregister schandlerid=0 event=notifyclientpoke\n\r"@,
        is_terminated(encode_utf8(res@)),
        method_of(encode_utf8(res@)) == "clientnotifyregister".spec_bytes(),
{
    proof {
        let all = "clientnotifyregister schandlerid=0 event=notifyclientpoke\n\r"@;
        reveal_strlit("clientnotifyregister");
        lemma_ascii_bytes("clientnotifyregister"@);
        reveal_strlit("clientnotifyregister schandlerid=0 event=notifyclientpoke\n\r");
        reveal_strlit("clientnotifyregister schandlerid=0 event=notifyclientpoke");
        reveal_strlit("\n\r");
        assert("clientnotifyregister schandlerid=0 event=notifyclientpoke\n\r"@
            =~= "clientnotifyregister schandlerid=0 event=notifyclientpoke"@ + "\n\r"@);
        lemma_suffix_of_join(
            "clientnotifyregister schandlerid=0 event=notifyclientpoke"@,
            "\n\r"@,
        );
        lemma_ascii_bytes(all);
        let b = encode_utf8(all);
        lemma_method_of_word(b, 20, 21);
        assert(b.subrange(0, 20) =~= "clientnotifyregister".spec_bytes());
    }
    "clientnotifyregister schandlerid=0 event=notifyclientpoke\n\r".to_owned()
}

/// The text of the command that selects the server connection `server_id`.
pub open spec fn select_text(server_id: int) -> Seq<char> {
    "use "@ + decimal_text(server_id) + "\n\r"@
}

/// The text of the command that pokes the client `clid`.
pub open spec fn poke_text(clid: int) -> Seq<char> {
    "clientpoke clid="@ + decimal_text(clid) + " msg=\n\r"@
}

/// The selection command is terminated, and its verb is `use`.
pub proof fn lemma_select_text(server_id: int)
    ensures
        is_terminated(encode_utf8(select_text(server_id))),
        method_of(encode_utf8(select_text(server_id))) == "use".spec_bytes(),
{
    let text = select_text(server_id);
    let number = decimal_text(server_id);
    lemma_suffix_of_join("use "@ + number, "\n\r"@);
    lemma_decimal_begins(server_id);
    let head = "use "@ + seq![number[0]];
    let rest = number.drop_first() + "\n\r"@;
    let b = encode_utf8(text);
    reveal_strlit("use ");
    reveal_strlit("use");
    assert(text =~= head + rest);
    lemma_bytes_join(head, rest);
    lemma_ascii_bytes(head);
    lemma_ascii_bytes("use"@);
    assert forall|i: int| 0 <= i < 5 implies b[i] == head[i] as u8 by {
        assert(b[i] == encode_utf8(head)[i]);
    }
    lemma_method_of_word(b, 3, 4);
    assert(b.subrange(0, 3) =~= "use".spec_bytes());
}

/// The poke command is terminated, and its verb is `clientpoke`.
pub proof fn lemma_poke_text(clid: int)
    ensures
        is_terminated(encode_utf8(poke_text(clid))),
        method_of(encode_utf8(poke_text(clid))) == "clientpoke".spec_bytes(),
{
    let text = poke_text(clid);
    reveal_strlit(" msg=\n\r");
    reveal_strlit(" msg=");
    reveal_strlit("\n\r");
    let head = "clientpoke clid="@ + decimal_text(clid);
    assert(text =~= (head + " msg="@) + "\n\r"@);
    lemma_suffix_of_join(head + " msg="@, "\n\r"@);
    let verb = "clientpoke clid="@;
    let b = encode_utf8(text);
    reveal_strlit("clientpoke clid=");
    reveal_strlit("clientpoke");
    assert(text =~= verb + (decimal_text(clid) + " msg=\n\r"@));
    lemma_bytes_join(verb, decimal_text(clid) + " msg=\n\r"@);
    lemma_ascii_bytes(verb);
    lemma_ascii_bytes("clientpoke"@);
    assert forall|i: int| 0 <= i < 16 implies b[i] == verb[i] as u8 by {
        assert(b[i] == encode_utf8(verb)[i]);
    }
    lemma_method_of_word(b, 10, 11);
    assert(b.subrange(0, 10) =~= "clientpoke".spec_bytes());
}

/// The command that selects the server connection with the given handle.
pub fn select_server_payload(server_id: i64) -> (res: String)
    ensures
        res@ == select_text(server_id as int),
        is_terminated(encode_utf8(res@)),
        method_of(encode_utf8(res@)) == "use".spec_bytes(),
{
    let mut out = "use ".to_owned();
    write_i64(&mut out, server_id);
    out.append("\n\r");
    proof {
        lemma_select_text(server_id as int);
    }
    out
}

/// The command that pokes the client with the given id, without a message.
pub fn poke_payload(clid: i64) -> (res: String)
    ensures
        res@ == poke_text(clid as int),
        is_terminated(encode_utf8(res@)),
        method_of(encode_utf8(res@)) == "clientpoke".spec_bytes(),
{
    let mut out = "clientpoke clid=".to_owned();
    write_i64(&mut out, clid);
    out.append(" msg=\n\r");
    proof {
        lemma_poke_text(clid as int);
    }
    out
}

/// The command that asks the server who the client is. It changes nothing
/// and serves to show that the connection is alive.
pub fn who_am_i_payload() -> (res: String)
    ensures
        res@ == "whoami\n\r"@,
        is_terminated(encode_utf8(res@)),
        method_of(encode_utf8(res@)) == "whoami".spec_bytes(),
{
    proof {
        reveal_strlit("whoami\n\r");
        reveal_strlit("whoami");
        reveal_strlit("\n\r");
        assert("whoami\n\r"@ =~= "whoami"@ + "\n\r"@);
        lemma_suffix_of_join("whoami"@, "\n\r"@);
        lemma_ascii_bytes("whoami\n\r"@);
        lemma_ascii_bytes("whoami"@);
        let b = encode_utf8("whoami\n\r"@);
        lemma_method_of_bare(b, 6);
        assert(b.subrange(0, 6) =~= "whoami".spec_bytes());
    }
    "whoami\n\r".to_owned()
}

/// Whether `payload` ends with the frame terminator, as every command must.
pub fn terminated(payload: &str) -> (res: bool)
    ensures
        res == is_terminated(payload.spec_bytes()),
{
    ends_with(payload.as_bytes(), "\n\r".as_bytes())
}

/// Whether the connection took fewer or more bytes than the command has: a
/// command sent in part would spoil the framing of what follows.
pub fn short_write(payload: &str, written: usize) -> (res: bool)
    ensures
        res == (written != payload.spec_bytes().len()),
{
    written != payload.as_bytes().len()
}

/// The verb of a command.
pub fn command_method<'a>(payload: &'a str) -> (res: &'a str)
    ensures
        res.spec_bytes() == method_of(payload.spec_bytes()),
{
    let text = trim(payload);
    match split_once(text, " ") {
        Some((verb, _)) => verb,
        None => text,
    }
}

} // verus!
