use std::collections::BTreeMap;
use ts_clientquery::frame::{decode_records, decode_status, extract_records, status_line};
use ts_clientquery::poked::NotifyClientPoke;
use ts_clientquery::query_status::QueryStatus;
use ts_clientquery::querystring::{
    find_value, is_well_escaped, read_number_i32, read_number_i64, read_text, read_text_or_empty,
    DecodeError, DelimitedRecord, Field, FromQueryString,
};
use ts_clientquery::select_result::SelectResult;

fn field(key: &str, value: &str) -> Field {
    Field { key: key.to_string(), value: value.to_string() }
}

#[test]
fn success_block_with_two_records() {
    let block = "clid=5|clid=9\nerror id=0 msg=ok\n\r";
    let status = decode_status(block).unwrap().unwrap();
    assert_eq!(status.id(), 0);
    assert_eq!(status.msg(), "ok");
    assert!(status.is_ok());
    let records: Vec<DelimitedRecord> = extract_records(block).unwrap();
    assert_eq!(records.len(), 2);
    assert_eq!(records[0].number("clid"), Ok(5));
    assert_eq!(records[1].number("clid"), Ok(9));
    assert_eq!(records[0].text("cid"), None);
}

#[test]
fn failure_block_yields_status_and_no_records() {
    let block = "error id=256 msg=command\\snot\\sfound\n\r";
    let status = decode_status(block).unwrap().unwrap();
    assert_eq!(status.id(), 256);
    assert_eq!(status.msg(), "command not found");
    assert!(!status.is_ok());
    let records: Vec<DelimitedRecord> = extract_records(block).unwrap();
    assert!(records.is_empty());
    let failure = status.into_result("use", ()).unwrap_err();
    assert_eq!(failure.method(), "use");
    assert_eq!(failure.id(), 256);
    assert_eq!(failure.msg(), "command not found");
}

#[test]
fn poke_notification_is_read() {
    let poke = NotifyClientPoke::from_line(
        "notifyclientpoke schandlerid=1 invokerid=7 invokername=Bob msg=hi",
    )
    .unwrap();
    assert_eq!(poke.server_handler_id(), 1);
    assert_eq!(poke.invoker_id(), 7);
    assert_eq!(poke.invoker_name(), "Bob");
    assert_eq!(poke.msg(), "hi");
}

#[test]
fn poke_message_defaults_to_empty() {
    let poke =
        NotifyClientPoke::from_line("notifyclientpoke schandlerid=3 invokerid=-4 invokername=A\\sB")
            .unwrap();
    assert_eq!(poke.server_handler_id(), 3);
    assert_eq!(poke.invoker_id(), -4);
    assert_eq!(poke.invoker_name(), "A B");
    assert_eq!(poke.msg(), "");
}

#[test]
fn poke_line_errors() {
    assert_eq!(
        NotifyClientPoke::from_line("notifyclientpokeschandlerid=1"),
        Err(DecodeError::MissingToken)
    );
    assert_eq!(
        NotifyClientPoke::from_line("notifyclientpoke invokerid=7 invokername=Bob"),
        Err(DecodeError::MissingField)
    );
    assert_eq!(
        NotifyClientPoke::from_line("notifyclientpoke schandlerid=x invokerid=7 invokername=Bob"),
        Err(DecodeError::InvalidNumber)
    );
    assert_eq!(
        NotifyClientPoke::from_line("notifyclientpoke schandlerid=1 invokerid=7"),
        Err(DecodeError::MissingField)
    );
}

#[test]
fn status_found_after_any_number_of_data_lines() {
    let tail = "error id=3 msg=x\n\r";
    let mut block = String::new();
    for n in 0..5 {
        let text = format!("{}{}", block, tail);
        let status = decode_status(&text).unwrap().unwrap();
        assert_eq!(status.id(), 3);
        assert_eq!(status.msg(), "x");
        block.push_str(&format!("line={}\n", n));
    }
}

#[test]
fn first_status_line_counts() {
    let status = decode_status("error id=1 msg=a\nerror id=2 msg=b\n").unwrap().unwrap();
    assert_eq!(status.id(), 1);
    assert_eq!(status.msg(), "a");
}

#[test]
fn block_without_status_line() {
    assert_eq!(decode_status(""), Ok(None));
    assert_eq!(decode_status("clid=5|clid=9\n"), Ok(None));
    assert_eq!(decode_status("an error id=0 msg=ok"), Ok(None));
    let records: Vec<DelimitedRecord> = extract_records("clid=5|clid=9\n").unwrap();
    assert!(records.is_empty());
}

#[test]
fn status_line_that_cannot_be_read() {
    assert_eq!(decode_status("error id=zero msg=ok\n\r"), Err(DecodeError::InvalidNumber));
    assert_eq!(decode_status("error msg=ok\n\r"), Err(DecodeError::MissingField));
    assert_eq!(decode_status("error id=0\n\r"), Err(DecodeError::MissingField));
    assert_eq!(decode_status("error id=2147483648 msg=x"), Err(DecodeError::InvalidNumber));
    assert_eq!(
        decode_status("error id=-2147483648 msg=x").unwrap().unwrap().id(),
        i32::MIN
    );
    // an undone escape that leaves a broken character behind
    assert_eq!(decode_status("error id=0 msg=a\\\u{e9}"), Err(DecodeError::Malformed));
}

#[test]
fn status_line_is_judged_by_its_trimmed_form() {
    assert!(status_line("error id=0 msg=ok"));
    assert!(status_line("  \terror id=0 msg=ok"));
    assert!(status_line("\u{a0}\u{2003}error id=0 msg=ok\u{3000}"));
    assert!(!status_line("error"));
    assert!(!status_line("error "));
    assert!(!status_line("error \t "));
    assert!(!status_line("xerror id=0"));
    assert!(!status_line("errorid=0"));
    assert!(!status_line(""));
    let status = decode_status("   error id=7 msg=late\r\n").unwrap().unwrap();
    assert_eq!(status.id(), 7);
    assert_eq!(status.msg(), "late");
}

#[test]
fn status_line_matches_the_trim_of_the_language() {
    for line in [
        "error id=0",
        " error x",
        "\u{85}error x",
        "\u{1680}error x",
        "\u{2028}\u{2029}\u{202f}\u{205f}error x\u{200a}",
        "\u{200b}error x",
        "\u{feff}error x",
        "error\u{a0}",
        "error \u{a0}x",
        "\u{e9}error x",
    ] {
        assert_eq!(status_line(line), line.trim().starts_with("error "), "{:?}", line);
    }
}

#[test]
fn status_try_from() {
    let status = QueryStatus::try_from("error id=0 msg=ok").unwrap();
    assert_eq!(status, QueryStatus::new(0, "ok".to_string()));
    assert_eq!(QueryStatus::try_from("id=0 msg=ok"), Err(DecodeError::MissingToken));
    // the record is what follows the first token
    let status = QueryStatus::try_from("x error id=5 msg=error\\sid=6").unwrap();
    assert_eq!(status.id(), 5);
    assert_eq!(status.msg(), "error id=6");
    // unknown fields are passed over
    let status = QueryStatus::try_from("error id=1 msg=m extra=1 flag").unwrap();
    assert_eq!(status.id(), 1);
    // of several values of one key the last counts
    let status = QueryStatus::try_from("error id=1 id=2 msg=m").unwrap();
    assert_eq!(status.id(), 2);
}

#[test]
fn status_default_is_ok() {
    let status = QueryStatus::default();
    assert_eq!(status.id(), 0);
    assert_eq!(status.msg(), "ok");
    assert!(status.is_ok());
}

#[test]
fn into_result_keeps_value_or_failure() {
    assert_eq!(QueryStatus::new(0, "ok".to_string()).into_result("whoami", 17), Ok(17));
    let failure = QueryStatus::new(1538, "invalid parameter".to_string())
        .into_result("clientpoke", 17)
        .unwrap_err();
    assert_eq!(failure.method(), "clientpoke");
    assert_eq!(failure.id(), 1538);
    assert_eq!(failure.msg(), "invalid parameter");
    let failure = QueryStatus::new(-1, "x".to_string()).into_error("auth");
    assert_eq!(failure.id(), -1);
    assert_eq!(failure.method(), "auth");
}

#[test]
fn records_keep_the_order_of_their_segments() {
    let records: Vec<DelimitedRecord> =
        extract_records("n=1|n=2|n=3|n=4\nerror id=0 msg=ok\n\r").unwrap();
    let numbers: Vec<i64> = records.iter().map(|r| r.number("n").unwrap()).collect();
    assert_eq!(numbers, vec![1, 2, 3, 4]);
    let records: Vec<SelectResult> =
        decode_records("id=1 msg=a|id=2 msg=b\\sc").unwrap();
    assert_eq!(records.len(), 2);
    assert_eq!(records[0].id(), 1);
    assert_eq!(records[1].msg(), "b c");
}

#[test]
fn records_of_segments_that_cannot_be_read() {
    let bad: Result<Vec<SelectResult>, DecodeError> =
        extract_records("id=1 msg=a|msg=b\nerror id=0 msg=ok\n\r");
    assert_eq!(bad, Err(DecodeError::MissingField));
    let bad: Result<Vec<SelectResult>, DecodeError> =
        extract_records("id=1 msg=a|id=b msg=b|msg=c\nerror id=0 msg=ok\n\r");
    assert_eq!(bad, Err(DecodeError::InvalidNumber));
    // a failing status hides even data that could not be read
    let none: Vec<SelectResult> =
        extract_records("id=1 msg=a|msg=b\nerror id=9 msg=no\n\r").unwrap();
    assert!(none.is_empty());
}

#[test]
fn block_that_begins_with_its_status_has_no_data() {
    let records: Vec<SelectResult> = extract_records("error id=0 msg=ok\n\r").unwrap();
    assert!(records.is_empty());
    let records: Vec<DelimitedRecord> =
        extract_records("error id=0 msg=ok\nclid=1|clid=2\n").unwrap();
    assert!(records.is_empty());
}

#[test]
fn only_the_first_line_holds_data() {
    let records: Vec<DelimitedRecord> =
        extract_records("a=1\nb=2|b=3\nerror id=0 msg=ok\n\r").unwrap();
    assert_eq!(records.len(), 1);
    assert_eq!(records[0].text("a"), Some("1"));
}

#[test]
fn empty_segments_are_records_too() {
    let records: Vec<DelimitedRecord> = decode_records("a=1||b=2|").unwrap();
    assert_eq!(records.len(), 4);
    assert_eq!(records[1].len(), 0);
    assert_eq!(records[3].len(), 0);
    let records: Vec<DelimitedRecord> = decode_records("").unwrap();
    assert_eq!(records.len(), 1);
}

#[test]
fn reading_twice_gives_the_same() {
    let block = "clid=5 name=a\\sb|clid=9\nerror id=0 msg=ok\n\r";
    assert_eq!(decode_status(block), decode_status(block));
    let first: Vec<DelimitedRecord> = extract_records(block).unwrap();
    let second: Vec<DelimitedRecord> = extract_records(&block.to_string()).unwrap();
    assert_eq!(first, second);
}

#[test]
fn record_from_query_goes_through_the_pair_grammar() {
    let record = DelimitedRecord::from_query("b=2 a=x\\sy\\/z\\\\ c").unwrap();
    assert_eq!(record.len(), 3);
    assert_eq!(record.text("a"), Some("x y/z\\"));
    assert_eq!(record.text("b"), Some("2"));
    assert_eq!(record.text("c"), Some(""));
    assert_eq!(record.text("d"), None);
    assert_eq!(record.number("b"), Ok(2));
    assert_eq!(record.number("a"), Err(DecodeError::InvalidNumber));
    assert_eq!(record.number("d"), Err(DecodeError::MissingField));
    assert_eq!(
        DelimitedRecord::from_query("a=x\\\u{e9}").map(|r| r.len()),
        Err(DecodeError::Malformed)
    );
}

#[test]
fn fields_read_by_name() {
    let fields = vec![field("id", "-12"), field("msg", "x"), field("id", "4")];
    assert_eq!(find_value(&fields, "id"), Some("-12"));
    assert_eq!(find_value(&fields, "msg"), Some("x"));
    assert_eq!(find_value(&fields, "ms"), None);
    assert_eq!(read_text(&fields, "msg"), Ok("x".to_string()));
    assert_eq!(read_text(&fields, "none"), Err(DecodeError::MissingField));
    assert_eq!(read_text_or_empty(&fields, "none"), "");
    assert_eq!(read_text_or_empty(&fields, "msg"), "x");
    assert_eq!(read_number_i32(&fields, "id"), Ok(-12));
    assert_eq!(read_number_i64(&fields, "id"), Ok(-12));
    assert_eq!(read_number_i32(&fields, "msg"), Err(DecodeError::InvalidNumber));
    assert_eq!(read_number_i64(&fields, "nid"), Err(DecodeError::MissingField));
    let status = QueryStatus::from_fields(&fields).unwrap();
    assert_eq!(status.id(), -12);
    assert_eq!(status.msg(), "x");
    assert_eq!(QueryStatus::from_fields(&vec![field("id", "1")]), Err(DecodeError::MissingField));
    assert_eq!(
        SelectResult::from_fields(&vec![field("msg", "m"), field("id", "70000000000")]),
        Err(DecodeError::InvalidNumber)
    );
    let select = SelectResult::from_fields(&vec![field("msg", "m"), field("id", "+7")]).unwrap();
    assert_eq!(select.id(), 7);
    assert_eq!(select.msg(), "m");
}

#[test]
fn numbers_with_a_digit_are_read_as_the_pair_grammar_reads_them() {
    for text in [
        "0", "7", "-7", "+7", "007", "-", "+", "", "1x", "x1", " 1", "1 ", "--1", "+-1", "1.5",
        "9223372036854775807", "9223372036854775808", "-9223372036854775808",
        "-9223372036854775809", "00000000000000000000000000001", "99999999999999999999999",
    ] {
        let fields = vec![field("v", text)];
        let mine = read_number_i64(&fields, "v").ok();
        let line = format!("v={}", text);
        let theirs = serde_teamspeak_querystring::from_str::<BTreeMap<String, i64>>(&line)
            .ok()
            .and_then(|m| m.get("v").copied());
        if !text.contains(' ') && !text.is_empty() && text != "+" && text != "-" {
            assert_eq!(mine, theirs, "{:?}", text);
        }
    }
    assert_eq!(read_number_i64(&vec![field("v", "+")], "v"), Err(DecodeError::InvalidNumber));
    assert_eq!(read_number_i64(&vec![field("v", "-")], "v"), Err(DecodeError::InvalidNumber));
    assert_eq!(read_number_i64(&vec![field("v", "")], "v"), Err(DecodeError::InvalidNumber));
    assert_eq!(decode_status("error id=- msg=x\n\r"), Err(DecodeError::InvalidNumber));
}

#[test]
fn record_that_ends_inside_an_escape_is_refused() {
    for record in [
        "k=a\\",
        "a\\=v",
        "k=\\",
        "\\",
        "k=v x=a\\ y=z",
        "k=a\\\\\\",
        "id=0 msg=oops\\",
        "k=a\\\u{e9}",
        "k=\\\u{e9}",
        "k\\\u{e9}=v",
        "k=%41x\\\u{e9}",
    ] {
        assert!(!is_well_escaped(record), "{:?}", record);
        assert_eq!(
            DelimitedRecord::from_query(record).map(|r| r.len()),
            Err(DecodeError::Malformed),
            "{:?}",
            record
        );
    }
    assert_eq!(decode_status("error id=0 msg=oops\\\n\r"), Err(DecodeError::Malformed));
    assert_eq!(QueryStatus::try_from("error id=0 msg=oops\\"), Err(DecodeError::Malformed));
    assert_eq!(
        NotifyClientPoke::from_line("notifyclientpoke schandlerid=1 invokerid=7 invokername=B\\"),
        Err(DecodeError::Malformed)
    );
}

#[test]
fn record_with_whole_escapes_is_read() {
    for record in [
        "",
        "k",
        "k=v",
        "k=a\\\\",
        "k=a\\sb\\/c\\\\",
        "k=\\x",
        "a\\sb=c",
        "k=a\\= x=\\\\=",
        "  k=v   ",
        "k=\u{e9}\\s\u{e9}",
    ] {
        assert!(is_well_escaped(record), "{:?}", record);
        assert!(DelimitedRecord::from_query(record).is_ok(), "{:?}", record);
    }
    let record = DelimitedRecord::from_query("k=a\\\\ m=\\\\").unwrap();
    assert_eq!(record.text("k"), Some("a\\"));
    assert_eq!(record.text("m"), Some("\\"));
}
