//! The session as a state machine.
//!
//! The program that owns the connection performs what the session tells it
//! to and reports what happened; the session decides what comes next. Set-up
//! runs from connecting through login and subscription; after that the
//! session listens, answers every poke with a server selection and, once
//! that is accepted, a poke in return, probes an idle connection when asked
//! to, and ends when it is cancelled or when anything fails.

use vstd::prelude::*;
use vstd::string::*;
use vstd::utf8::*;
use crate::frame::views_of;
use crate::poked::{poke_of_line, NotifyClientPoke, PokeView};
use crate::query_result::{QueryError, QueryErrorView};
use crate::querystring::DecodeError;
use crate::text::{contains, has, lines_of, split_lines};

verus! {

/// Where a session stands.
#[derive(Debug, Clone, Copy, PartialEq, Eq, Structural)]
pub enum SessionState {
    Connecting,
    Authenticating,
    Subscribing,
    Listening,
    Terminated,
}

/// What the owner of the connection reports.
#[derive(Debug, PartialEq, Eq)]
pub enum SessionEvent {
    /// The connection stands.
    Connected,
    /// The server answered the command in flight with success.
    Accepted,
    /// The server refused the command in flight.
    Refused(QueryError),
    /// Cancellation was seen before a read.
    Cancelled,
    /// A read ran out of time without data; `liveness` tells whether the
    /// liveness flag was up.
    Idle { liveness: bool },
    /// A read brought text.
    Data(String),
}

/// Why a session failed.
#[derive(Debug, PartialEq, Eq)]
pub enum SessionFault {
    /// The server refused a command; the refusal names the command's verb.
    Refused(QueryError),
    /// A notification could not be read.
    Decode(DecodeError),
    /// An event came that the state does not provide for.
    Unexpected,
}

/// What the owner of the connection is to do next.
#[derive(Debug, PartialEq, Eq)]
pub enum SessionAction {
    /// Send the login command and report its outcome.
    Login,
    /// Send the subscription command and report its outcome.
    Subscribe,
    /// Look for cancellation, then read once and report what came.
    Listen,
    /// Send the probe, lower the liveness flag, then do as for `Listen`.
    Probe,
    /// Send the selection of the server connection with this handle and
    /// report its outcome.
    Select(i64),
    /// Send the poke for the client with this id and report its outcome.
    Poke(i64),
    /// Stop: the session has ended in good order.
    Finish,
    /// Stop: the session has failed.
    Fail(SessionFault),
}

/// The content of a [`SessionEvent`].
pub enum EventView {
    Connected,
    Accepted,
    Refused(QueryErrorView),
    Cancelled,
    Idle(bool),
    Data(Seq<u8>),
}

/// The content of a [`SessionFault`].
pub enum FaultView {
    Refused(QueryErrorView),
    Decode(DecodeError),
    Unexpected,
}

/// The content of a [`SessionAction`].
pub enum ActionView {
    Login,
    Subscribe,
    Listen,
    Probe,
    Select(int),
    Poke(int),
    Finish,
    Fail(FaultView),
}

impl View for SessionEvent {
    type V = EventView;

    open spec fn view(&self) -> EventView {
        match self {
            SessionEvent::Connected => EventView::Connected,
            SessionEvent::Accepted => EventView::Accepted,
            SessionEvent::Refused(refusal) => EventView::Refused(refusal@),
            SessionEvent::Cancelled => EventView::Cancelled,
            SessionEvent::Idle { liveness } => EventView::Idle(*liveness),
            SessionEvent::Data(text) => EventView::Data(encode_utf8(text@)),
        }
    }
}

impl View for SessionFault {
    type V = FaultView;

    open spec fn view(&self) -> FaultView {
        match self {
            SessionFault::Refused(refusal) => FaultView::Refused(refusal@),
            SessionFault::Decode(e) => FaultView::Decode(*e),
            SessionFault::Unexpected => FaultView::Unexpected,
        }
    }
}

impl View for SessionAction {
    type V = ActionView;

    open spec fn view(&self) -> ActionView {
        match self {
            SessionAction::Login => ActionView::Login,
            SessionAction::Subscribe => ActionView::Subscribe,
            SessionAction::Listen => ActionView::Listen,
            SessionAction::Probe => ActionView::Probe,
            SessionAction::Select(handle) => ActionView::Select(*handle as int),
            SessionAction::Poke(clid) => ActionView::Poke(*clid as int),
            SessionAction::Finish => ActionView::Finish,
            SessionAction::Fail(fault) => ActionView::Fail(fault@),
        }
    }
}

/// A line that announces a poke: it holds `notifyclientpoke`.
pub open spec fn is_poke_line(line: Seq<u8>) -> bool {
    has(line, "notifyclientpoke".spec_bytes())
}

/// The pokes that the lines from `from` on announce, in order, up to the
/// first announcement that cannot be read, and the error of that one.
pub open spec fn plan_from(lines: Seq<Seq<u8>>, from: int) -> (Seq<PokeView>, Option<DecodeError>)
    decreases lines.len() - from,
{
    if from < 0 || from >= lines.len() {
        (Seq::empty(), None)
    } else if !is_poke_line(lines[from]) {
        plan_from(lines, from + 1)
    } else {
        match poke_of_line(lines[from]) {
            Err(e) => (Seq::empty(), Some(e)),
            Ok(poke) => (
                seq![poke] + plan_from(lines, from + 1).0,
                plan_from(lines, from + 1).1,
            ),
        }
    }
}

/// The pokes that a text announces, and the error that ends them if one
/// does.
pub open spec fn plan_of(data: Seq<u8>) -> (Seq<PokeView>, Option<DecodeError>) {
    plan_from(lines_of(data), 0)
}

/// Reads the pokes that a text announces, line by line. Lines without
/// `notifyclientpoke` are passed over; the first announcement that cannot be
/// read ends the reading and is reported beside the pokes before it.
pub fn notifications(data: &str) -> (res: (Vec<NotifyClientPoke>, Option<DecodeError>))
    ensures
        views_of(res.0@) == plan_of(data.spec_bytes()).0,
        res.1 == plan_of(data.spec_bytes()).1,
{
    let lines = split_lines(data);
    let ghost ls = lines_of(data.spec_bytes());
    let mut out: Vec<NotifyClientPoke> = Vec::new();
    let mut k: usize = 0;
    assert(views_of(out@) + plan_from(ls, 0).0 =~= plan_from(ls, 0).0);
    while k < lines.len()
        invariant
            k <= lines.len(),
            ls == lines_of(data.spec_bytes()),
            lines.len() == ls.len(),
            forall|i: int| 0 <= i < lines.len() ==> (#[trigger] lines[i]).spec_bytes() == ls[i],
            plan_of(data.spec_bytes()).0 == views_of(out@) + plan_from(ls, k as int).0,
            plan_of(data.spec_bytes()).1 == plan_from(ls, k as int).1,
        decreases lines.len() - k,
    {
        let line = lines[k];
        if contains(line.as_bytes(), "notifyclientpoke".as_bytes()) {
            match NotifyClientPoke::from_line(line) {
                Err(e) => {
                    assert(views_of(out@) + Seq::<PokeView>::empty() =~= views_of(out@));
                    return (out, Some(e));
                },
                Ok(poke) => {
                    let ghost before = views_of(out@);
                    let ghost rest = plan_from(ls, k + 1).0;
                    out.push(poke);
                    assert(views_of(out@) =~= before.push(poke@));
                    assert(before + (seq![poke@] + rest) =~= before.push(poke@) + rest);
                },
            }
        }
        k += 1;
    }
    assert(views_of(out@) + Seq::<PokeView>::empty() =~= views_of(out@));
    (out, None)
}

/// The liveness flag: a timer raises it, and the session's owner lowers it
/// when the probe has gone out.
#[derive(Debug)]
pub struct Liveness {
    raised: bool,
}

impl View for Liveness {
    type V = bool;

    closed spec fn view(&self) -> bool {
        self.raised
    }
}

impl Liveness {
    /// A flag that is down.
    pub fn new() -> (res: Self)
        ensures
            !res@,
    {
        Self { raised: false }
    }

    /// Raises the flag.
    pub fn raise(&mut self)
        ensures
            final(self)@,
    {
        self.raised = true;
    }

    /// Whether the flag is up.
    pub fn is_raised(&self) -> (res: bool)
        ensures
            res == self@,
    {
        self.raised
    }

    /// Lowers the flag.
    pub fn clear(&mut self)
        ensures
            !final(self)@,
    {
        self.raised = false;
    }
}

/// How far the answer to a poke has come.
#[derive(Debug, Clone, Copy, PartialEq, Eq, Structural)]
pub enum Answer {
    /// No poke is being answered.
    Idle,
    /// The selection of the server connection is in flight.
    Selecting,
    /// The poke in return is in flight.
    Poking,
}

/// A session as mathematics: its state, how far the answer to a poke has
/// come, the poke that is being answered, the pokes still to answer, and the
/// error that ends the session once they are answered.
pub struct SessionModel {
    pub state: SessionState,
    pub answer: Answer,
    pub current: Option<PokeView>,
    pub queue: Seq<PokeView>,
    pub fault: Option<DecodeError>,
}

/// The model of a session in `state` with nothing in flight or queued.
pub open spec fn at_rest(state: SessionState) -> SessionModel {
    SessionModel { state, answer: Answer::Idle, current: None, queue: Seq::empty(), fault: None }
}

/// How a listening session goes on with the given pokes to answer and the
/// given error after them: it selects the server connection of the first
/// poke; with none left it fails with the error; with neither it listens.
pub open spec fn resume(queue: Seq<PokeView>, fault: Option<DecodeError>) -> (
    SessionModel,
    ActionView,
) {
    if queue.len() > 0 {
        (
            SessionModel {
                state: SessionState::Listening,
                answer: Answer::Selecting,
                current: Some(queue[0]),
                queue: queue.drop_first(),
                fault,
            },
            ActionView::Select(queue[0].server_handler_id),
        )
    } else {
        match fault {
            Some(e) => (
                at_rest(SessionState::Terminated),
                ActionView::Fail(FaultView::Decode(e)),
            ),
            None => (at_rest(SessionState::Listening), ActionView::Listen),
        }
    }
}

/// The transition function: the session after an event, and what is to be
/// done next.
pub open spec fn step_of(m: SessionModel, e: EventView) -> (SessionModel, ActionView) {
    let unexpected = (
        at_rest(SessionState::Terminated),
        ActionView::Fail(FaultView::Unexpected),
    );
    match m.state {
        SessionState::Connecting => match e {
            EventView::Connected => (at_rest(SessionState::Authenticating), ActionView::Login),
            _ => unexpected,
        },
        SessionState::Authenticating => match e {
            EventView::Accepted => (at_rest(SessionState::Subscribing), ActionView::Subscribe),
            EventView::Refused(refusal) => (
                at_rest(SessionState::Terminated),
                ActionView::Fail(FaultView::Refused(refusal)),
            ),
            _ => unexpected,
        },
        SessionState::Subscribing => match e {
            EventView::Accepted => (at_rest(SessionState::Listening), ActionView::Listen),
            EventView::Refused(refusal) => (
                at_rest(SessionState::Terminated),
                ActionView::Fail(FaultView::Refused(refusal)),
            ),
            _ => unexpected,
        },
        SessionState::Listening => match m.answer {
            Answer::Idle => match e {
                EventView::Cancelled => (at_rest(SessionState::Terminated), ActionView::Finish),
                EventView::Idle(liveness) => (
                    at_rest(SessionState::Listening),
                    if liveness {
                        ActionView::Probe
                    } else {
                        ActionView::Listen
                    },
                ),
                EventView::Data(data) => resume(plan_of(data).0, plan_of(data).1),
                _ => unexpected,
            },
            Answer::Selecting => match e {
                EventView::Accepted => match m.current {
                    Some(poke) => (
                        SessionModel {
                            state: SessionState::Listening,
                            answer: Answer::Poking,
                            current: m.current,
                            queue: m.queue,
                            fault: m.fault,
                        },
                        ActionView::Poke(poke.invoker_id),
                    ),
                    None => unexpected,
                },
                EventView::Refused(refusal) => (
                    at_rest(SessionState::Terminated),
                    ActionView::Fail(FaultView::Refused(refusal)),
                ),
                _ => unexpected,
            },
            Answer::Poking => match e {
                EventView::Accepted => resume(m.queue, m.fault),
                EventView::Refused(refusal) => (
                    at_rest(SessionState::Terminated),
                    ActionView::Fail(FaultView::Refused(refusal)),
                ),
                _ => unexpected,
            },
        },
        SessionState::Terminated => unexpected,
    }
}

/// A poke is answered with two commands in order: a text that announces one
/// poke makes a listening session select the server connection on which the
/// poke came; once that is accepted it pokes the one who sent it; once that
/// is accepted it listens again. A refused selection ends the session, and
/// no poke goes out. The texts of the two commands are
/// [`crate::command::select_text`] and [`crate::command::poke_text`].
pub proof fn lemma_poke_is_answered(data: Seq<u8>, poke: PokeView, refusal: QueryErrorView)
    requires
        plan_of(data) == (seq![poke], None::<DecodeError>),
    ensures
        ({
            let heard = step_of(at_rest(SessionState::Listening), EventView::Data(data));
            let selected = step_of(heard.0, EventView::Accepted);
            let poked = step_of(selected.0, EventView::Accepted);
            &&& heard.1 == ActionView::Select(poke.server_handler_id)
            &&& selected.1 == ActionView::Poke(poke.invoker_id)
            &&& poked == (at_rest(SessionState::Listening), ActionView::Listen)
            &&& step_of(heard.0, EventView::Refused(refusal)) == (
                at_rest(SessionState::Terminated),
                ActionView::Fail(FaultView::Refused(refusal)),
            )
        }),
{
    let queue = seq![poke];
    assert(queue.drop_first() =~= Seq::<PokeView>::empty());
}

/// A session.
#[derive(Debug)]
pub struct Session {
    state: SessionState,
    answer: Answer,
    current: Option<NotifyClientPoke>,
    queue: Vec<NotifyClientPoke>,
    fault: Option<DecodeError>,
}

impl View for Session {
    type V = SessionModel;

    closed spec fn view(&self) -> SessionModel {
        SessionModel {
            state: self.state,
            answer: self.answer,
            current: match self.current {
                Some(poke) => Some(poke@),
                None => None,
            },
            queue: views_of(self.queue@),
            fault: self.fault,
        }
    }
}

impl Session {
    /// A session that has yet to connect.
    pub fn new() -> (res: Self)
        ensures
            res@ == at_rest(SessionState::Connecting),
    {
        let queue: Vec<NotifyClientPoke> = Vec::new();
        assert(views_of(queue@) =~= Seq::<PokeView>::empty());
        Self {
            state: SessionState::Connecting,
            answer: Answer::Idle,
            current: None,
            queue,
            fault: None,
        }
    }

    /// Where the session stands.
    pub fn state(&self) -> (res: SessionState)
        ensures
            res == self@.state,
    {
        self.state
    }

    /// The poke that is being answered, while one is.
    pub fn answering(&self) -> (res: Option<&NotifyClientPoke>)
        ensures
            match res {
                Some(poke) => self@.current == Some(poke@),
                None => self@.current is None,
            },
    {
        self.current.as_ref()
    }

    /// Puts the session at rest in `state`.
    fn rest(&mut self, state: SessionState)
        ensures
            final(self)@ == at_rest(state),
    {
        self.state = state;
        self.answer = Answer::Idle;
        self.current = None;
        self.queue = Vec::new();
        self.fault = None;
        assert(views_of(self.queue@) =~= Seq::<PokeView>::empty());
    }

    /// Ends the session for an event that its state does not provide for.
    fn refuse(&mut self) -> (action: SessionAction)
        ensures
            final(self)@ == at_rest(SessionState::Terminated),
            action@ == ActionView::Fail(FaultView::Unexpected),
    {
        self.rest(SessionState::Terminated);
        SessionAction::Fail(SessionFault::Unexpected)
    }

    /// Ends the session for a refused command.
    fn refused(&mut self, refusal: QueryError) -> (action: SessionAction)
        ensures
            final(self)@ == at_rest(SessionState::Terminated),
            action@ == ActionView::Fail(FaultView::Refused(refusal@)),
    {
        self.rest(SessionState::Terminated);
        SessionAction::Fail(SessionFault::Refused(refusal))
    }

    /// Goes on listening with what is queued.
    fn go_on(&mut self) -> (action: SessionAction)
        ensures
            (final(self)@, action@) == resume(old(self)@.queue, old(self)@.fault),
    {
        if self.queue.len() > 0 {
            let ghost before = views_of(self.queue@);
            let poke = self.queue.remove(0);
            assert(views_of(self.queue@) =~= before.drop_first());
            let handle = poke.server_handler_id();
            self.state = SessionState::Listening;
            self.answer = Answer::Selecting;
            self.current = Some(poke);
            SessionAction::Select(handle)
        } else {
            assert(views_of(self.queue@).len() == 0);
            match self.fault {
                Some(e) => {
                    self.rest(SessionState::Terminated);
                    SessionAction::Fail(SessionFault::Decode(e))
                },
                None => {
                    self.rest(SessionState::Listening);
                    SessionAction::Listen
                },
            }
        }
    }

    /// Goes from the accepted selection to the poke in return.
    fn poke_back(&mut self) -> (action: SessionAction)
        requires
            old(self)@.state == SessionState::Listening,
            old(self)@.answer == Answer::Selecting,
        ensures
            (final(self)@, action@) == step_of(old(self)@, EventView::Accepted),
    {
        let clid = match &self.current {
            Some(poke) => Some(poke.invoker_id()),
            None => None,
        };
        match clid {
            Some(clid) => {
                self.answer = Answer::Poking;
                SessionAction::Poke(clid)
            },
            None => self.refuse(),
        }
    }

    /// Takes what happened and says what to do next.
    pub fn step(&mut self, event: SessionEvent) -> (action: SessionAction)
        ensures
            (final(self)@, action@) == step_of(old(self)@, event@),
    {
        match self.state {
            SessionState::Connecting => match event {
                SessionEvent::Connected => {
                    self.rest(SessionState::Authenticating);
                    SessionAction::Login
                },
                _ => self.refuse(),
            },
            SessionState::Authenticating => match event {
                SessionEvent::Accepted => {
                    self.rest(SessionState::Subscribing);
                    SessionAction::Subscribe
                },
                SessionEvent::Refused(refusal) => self.refused(refusal),
                _ => self.refuse(),
            },
            SessionState::Subscribing => match event {
                SessionEvent::Accepted => {
                    self.rest(SessionState::Listening);
                    SessionAction::Listen
                },
                SessionEvent::Refused(refusal) => self.refused(refusal),
                _ => self.refuse(),
            },
            SessionState::Listening => match self.answer {
                Answer::Idle => match event {
                    SessionEvent::Cancelled => {
                        self.rest(SessionState::Terminated);
                        SessionAction::Finish
                    },
                    SessionEvent::Idle { liveness } => {
                        self.rest(SessionState::Listening);
                        if liveness {
                            SessionAction::Probe
                        } else {
                            SessionAction::Listen
                        }
                    },
                    SessionEvent::Data(text) => {
                        let (pokes, fault) = notifications(text.as_str());
                        self.queue = pokes;
                        self.fault = fault;
                        self.go_on()
                    },
                    _ => self.refuse(),
                },
                Answer::Selecting => match event {
                    SessionEvent::Accepted => self.poke_back(),
                    SessionEvent::Refused(refusal) => self.refused(refusal),
                    _ => self.refuse(),
                },
                Answer::Poking => match event {
                    SessionEvent::Accepted => self.go_on(),
                    SessionEvent::Refused(refusal) => self.refused(refusal),
                    _ => self.refuse(),
                },
            },
            SessionState::Terminated => self.refuse(),
        }
    }
}

} // verus!
