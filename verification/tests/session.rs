use ts_clientquery::query_status::QueryStatus;
use ts_clientquery::querystring::DecodeError;
use ts_clientquery::command::{poke_payload, select_server_payload};
use ts_clientquery::session::{
    notifications, Liveness, Session, SessionAction, SessionEvent, SessionFault, SessionState,
};

fn refusal(method: &str, id: i32, msg: &str) -> ts_clientquery::QueryError {
    QueryStatus::new(id, msg.to_string()).into_error(method)
}

fn listening() -> Session {
    let mut session = Session::new();
    assert_eq!(session.state(), SessionState::Connecting);
    assert_eq!(session.step(SessionEvent::Connected), SessionAction::Login);
    assert_eq!(session.state(), SessionState::Authenticating);
    assert_eq!(session.step(SessionEvent::Accepted), SessionAction::Subscribe);
    assert_eq!(session.state(), SessionState::Subscribing);
    assert_eq!(session.step(SessionEvent::Accepted), SessionAction::Listen);
    assert_eq!(session.state(), SessionState::Listening);
    session
}

#[test]
fn poke_is_answered_with_select_then_poke() {
    let mut session = listening();
    assert!(session.answering().is_none());
    let action = session.step(SessionEvent::Data(
        "notifyclientpoke schandlerid=1 invokerid=7 invokername=Bob msg=hi\n\r".to_string(),
    ));
    assert_eq!(action, SessionAction::Select(1));
    assert_eq!(select_server_payload(1), "use 1\n\r");
    let poke = session.answering().unwrap();
    assert_eq!(poke.server_handler_id(), 1);
    assert_eq!(poke.invoker_id(), 7);
    assert_eq!(poke.invoker_name(), "Bob");
    assert_eq!(poke.msg(), "hi");
    assert_eq!(session.state(), SessionState::Listening);
    let action = session.step(SessionEvent::Accepted);
    assert_eq!(action, SessionAction::Poke(7));
    assert_eq!(poke_payload(7), "clientpoke clid=7 msg=\n\r");
    assert_eq!(session.answering().unwrap().invoker_name(), "Bob");
    assert_eq!(session.step(SessionEvent::Accepted), SessionAction::Listen);
    assert_eq!(session.state(), SessionState::Listening);
    assert!(session.answering().is_none());
}

#[test]
fn refused_selection_sends_no_poke() {
    let mut session = listening();
    let action = session.step(SessionEvent::Data(
        "notifyclientpoke schandlerid=1 invokerid=7 invokername=Bob msg=hi\n\r".to_string(),
    ));
    assert_eq!(action, SessionAction::Select(1));
    let action = session.step(SessionEvent::Refused(refusal("use", 1799, "invalid handler")));
    assert_eq!(
        action,
        SessionAction::Fail(SessionFault::Refused(refusal("use", 1799, "invalid handler")))
    );
    assert_eq!(session.state(), SessionState::Terminated);
    assert!(session.answering().is_none());
}

#[test]
fn idle_twice_with_flag_between_probes_once() {
    let mut session = listening();
    let mut flag = Liveness::new();
    let mut probes = 0;
    assert!(!flag.is_raised());
    let action = session.step(SessionEvent::Idle { liveness: flag.is_raised() });
    assert_eq!(action, SessionAction::Listen);
    flag.raise();
    assert!(flag.is_raised());
    let action = session.step(SessionEvent::Idle { liveness: flag.is_raised() });
    assert_eq!(action, SessionAction::Probe);
    if action == SessionAction::Probe {
        probes += 1;
        flag.clear();
    }
    assert!(!flag.is_raised());
    let action = session.step(SessionEvent::Idle { liveness: flag.is_raised() });
    assert_eq!(action, SessionAction::Listen);
    assert_eq!(probes, 1);
    assert_eq!(session.state(), SessionState::Listening);
}

#[test]
fn refused_login_ends_the_session() {
    let mut session = Session::new();
    assert_eq!(session.step(SessionEvent::Connected), SessionAction::Login);
    let action = session.step(SessionEvent::Refused(refusal("auth", 1538, "invalid parameter")));
    assert_eq!(
        action,
        SessionAction::Fail(SessionFault::Refused(refusal("auth", 1538, "invalid parameter")))
    );
    assert_eq!(session.state(), SessionState::Terminated);
    assert_eq!(
        session.step(SessionEvent::Accepted),
        SessionAction::Fail(SessionFault::Unexpected)
    );
}

#[test]
fn refused_subscription_ends_the_session() {
    let mut session = Session::new();
    session.step(SessionEvent::Connected);
    session.step(SessionEvent::Accepted);
    let action = session.step(SessionEvent::Refused(refusal("clientnotifyregister", 2, "no")));
    assert_eq!(
        action,
        SessionAction::Fail(SessionFault::Refused(refusal("clientnotifyregister", 2, "no")))
    );
    assert_eq!(session.state(), SessionState::Terminated);
}

#[test]
fn cancellation_ends_the_session_in_good_order() {
    let mut session = listening();
    assert_eq!(session.step(SessionEvent::Cancelled), SessionAction::Finish);
    assert_eq!(session.state(), SessionState::Terminated);
}

#[test]
fn chatter_is_passed_over() {
    let mut session = listening();
    let action = session.step(SessionEvent::Data(
        "notifytalkstatuschange schandlerid=1 status=1\n\rselected schandlerid=1\n\r".to_string(),
    ));
    assert_eq!(action, SessionAction::Listen);
    assert_eq!(session.step(SessionEvent::Data(String::new())), SessionAction::Listen);
}

#[test]
fn several_pokes_are_answered_in_order() {
    let mut session = listening();
    let data = "notifyclientpoke schandlerid=1 invokerid=7 invokername=A\n\
                chatter\n\
                notifyclientpoke schandlerid=2 invokerid=8 invokername=B msg=x\n\r";
    assert_eq!(session.step(SessionEvent::Data(data.to_string())), SessionAction::Select(1));
    assert_eq!(session.step(SessionEvent::Accepted), SessionAction::Poke(7));
    assert_eq!(session.step(SessionEvent::Accepted), SessionAction::Select(2));
    assert_eq!(session.answering().unwrap().invoker_name(), "B");
    assert_eq!(session.step(SessionEvent::Accepted), SessionAction::Poke(8));
    assert_eq!(session.step(SessionEvent::Accepted), SessionAction::Listen);
}

#[test]
fn refused_answer_ends_the_session() {
    let mut session = listening();
    let data = "notifyclientpoke schandlerid=1 invokerid=7 invokername=A\n\
                notifyclientpoke schandlerid=2 invokerid=8 invokername=B\n";
    assert_eq!(session.step(SessionEvent::Data(data.to_string())), SessionAction::Select(1));
    assert_eq!(session.step(SessionEvent::Accepted), SessionAction::Poke(7));
    let action = session.step(SessionEvent::Refused(refusal("clientpoke", 512, "invalid clientID")));
    assert_eq!(
        action,
        SessionAction::Fail(SessionFault::Refused(refusal("clientpoke", 512, "invalid clientID")))
    );
    assert_eq!(session.state(), SessionState::Terminated);
}

#[test]
fn announcement_that_cannot_be_read_ends_the_session_after_the_pokes_before_it() {
    let mut session = listening();
    let data = "notifyclientpoke schandlerid=1 invokerid=7 invokername=A\n\
                notifyclientpoke schandlerid=2 invokername=B\n\
                notifyclientpoke schandlerid=3 invokerid=9 invokername=C\n";
    assert_eq!(session.step(SessionEvent::Data(data.to_string())), SessionAction::Select(1));
    assert_eq!(session.step(SessionEvent::Accepted), SessionAction::Poke(7));
    assert_eq!(
        session.step(SessionEvent::Accepted),
        SessionAction::Fail(SessionFault::Decode(DecodeError::MissingField))
    );
    assert_eq!(session.state(), SessionState::Terminated);

    let mut session = listening();
    assert_eq!(
        session.step(SessionEvent::Data("x notifyclientpoke\n".to_string())),
        SessionAction::Fail(SessionFault::Decode(DecodeError::MissingToken))
    );
}

#[test]
fn events_out_of_turn_end_the_session() {
    let mut session = Session::new();
    assert_eq!(
        session.step(SessionEvent::Accepted),
        SessionAction::Fail(SessionFault::Unexpected)
    );
    assert_eq!(session.state(), SessionState::Terminated);
    let mut session = listening();
    assert_eq!(
        session.step(SessionEvent::Accepted),
        SessionAction::Fail(SessionFault::Unexpected)
    );
    let mut session = listening();
    session.step(SessionEvent::Data(
        "notifyclientpoke schandlerid=1 invokerid=7 invokername=A\n".to_string(),
    ));
    assert_eq!(
        session.step(SessionEvent::Cancelled),
        SessionAction::Fail(SessionFault::Unexpected)
    );
}

#[test]
fn notifications_of_a_text() {
    let (pokes, fault) = notifications(
        "notifyclientpoke schandlerid=1 invokerid=7 invokername=Bob msg=hi\n\r",
    );
    assert_eq!(fault, None);
    assert_eq!(pokes.len(), 1);
    assert_eq!(pokes[0].msg(), "hi");
    let (pokes, fault) = notifications("");
    assert!(pokes.is_empty());
    assert_eq!(fault, None);
    let (pokes, fault) = notifications(
        "notifyclientpoke schandlerid=1 invokerid=7 invokername=Bob\nnotifyclientpoke a=b\nnotifyclientpoke schandlerid=1 invokerid=7 invokername=Bob\n",
    );
    assert_eq!(pokes.len(), 1);
    assert_eq!(fault, Some(DecodeError::MissingField));
}
