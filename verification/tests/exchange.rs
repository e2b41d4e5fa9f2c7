use ts_clientquery::exchange::{conclude, conclude_with_records, Exchange, ProtocolError};
use ts_clientquery::querystring::{DecodeError, DelimitedRecord};
use ts_clientquery::select_result::SelectResult;

#[test]
fn reply_gathered_until_the_status_marker() {
    let mut exchange = Exchange::new();
    assert!(!exchange.absorb(Some("clid=1|clid=2\n")));
    assert!(!exchange.absorb(Some("x")));
    assert!(exchange.absorb(Some("error id=0 msg=ok\n\r")));
    assert_eq!(exchange.finish(), Ok("clid=1|clid=2\nxerror id=0 msg=ok\n\r".to_string()));
}

#[test]
fn an_empty_frame_ends_the_gathering() {
    let mut exchange = Exchange::new();
    assert!(exchange.absorb(Some("")));
    assert_eq!(exchange.finish(), Err(ProtocolError::NoData));
    let mut exchange = Exchange::new();
    assert!(!exchange.absorb(Some("clid=1\n")));
    assert!(exchange.absorb(Some("")));
    assert_eq!(exchange.finish(), Ok("clid=1\n".to_string()));
}

#[test]
fn a_read_without_data_ends_the_gathering() {
    let mut exchange = Exchange::new();
    assert!(!exchange.absorb(Some("partial")));
    assert!(exchange.absorb(None));
    assert_eq!(exchange.finish(), Ok("partial".to_string()));
}

#[test]
fn no_data_at_all_is_an_error() {
    let mut exchange = Exchange::new();
    assert!(exchange.absorb(None));
    assert_eq!(exchange.finish(), Err(ProtocolError::NoData));
    assert_eq!(Exchange::new().finish(), Err(ProtocolError::NoData));
}

#[test]
fn the_marker_needs_its_blank() {
    let mut exchange = Exchange::new();
    assert!(!exchange.absorb(Some("error")));
    assert!(exchange.absorb(Some("an error came")));
}

#[test]
fn outcome_of_a_command() {
    assert_eq!(conclude("use 1\n\r", "error id=0 msg=ok\n\r"), Ok(Ok(())));
    let refusal = conclude("use 1\n\r", "error id=256 msg=command\\snot\\sfound\n\r")
        .unwrap()
        .unwrap_err();
    assert_eq!(refusal.method(), "use");
    assert_eq!(refusal.id(), 256);
    assert_eq!(refusal.msg(), "command not found");
    assert_eq!(refusal.to_string(), "Call method: use error! Code: 256(command not found)");
    let refusal = conclude("  whoami\n\r", "x\nerror id=1794 msg=not\\sconnected\n\r")
        .unwrap()
        .unwrap_err();
    assert_eq!(refusal.method(), "whoami");
    assert_eq!(refusal.id(), 1794);
}

#[test]
fn reply_without_a_readable_status() {
    assert_eq!(conclude("use 1\n\r", "selected\n\r"), Err(ProtocolError::NoStatusLine));
    assert_eq!(
        conclude("use 1\n\r", "error id= msg=x\n\r"),
        Err(ProtocolError::Decode(DecodeError::InvalidNumber))
    );
    assert_eq!(
        conclude("use 1\n\r", "error msg=x\n\r"),
        Err(ProtocolError::Decode(DecodeError::MissingField))
    );
}

#[test]
fn status_and_records_together() {
    let (status, records) =
        conclude_with_records::<DelimitedRecord>("clid=5|clid=9\nerror id=0 msg=ok\n\r").unwrap();
    assert!(status.is_ok());
    assert_eq!(records.len(), 2);
    assert_eq!(records[1].number("clid"), Ok(9));
    let (status, records) =
        conclude_with_records::<DelimitedRecord>("clid=5\nerror id=512 msg=no\n\r").unwrap();
    assert_eq!(status.id(), 512);
    assert!(records.is_empty());
    assert_eq!(
        conclude_with_records::<SelectResult>("clid=5\nerror id=0 msg=ok\n\r").map(|x| x.1.len()),
        Err(ProtocolError::Decode(DecodeError::MissingField))
    );
    assert_eq!(
        conclude_with_records::<SelectResult>("clid=5\n").map(|x| x.1.len()),
        Err(ProtocolError::NoStatusLine)
    );
}
