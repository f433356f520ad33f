//! The decisions of a connection: what to do when bytes arrive, when a
//! command is sent, when the output is flushed and when the machine is
//! woken up.
use vstd::prelude::*;

use std::collections::VecDeque;

use netbuf::Buf;

use crate::buffer::{buf_bytes, BUF_LIMIT};
use crate::conversion::{encode_command, ToRedisCommand};
use crate::decimal::{decimal, push_decimal};
use crate::message::{
    consumed, parse_is_defined, parse_outcome, Expectation, Message, MessageModel, ParseOutcome, ParseResult,
};
use crate::port::{Port, PortImpl};

verus! {

/// Where a connection is in its start-up.
#[derive(Debug, Clone, Copy, PartialEq, Eq)]
pub enum State {
    /// Waiting for the socket to connect.
    Connecting,
    /// The database was chosen; waiting for the server to accept it.
    SettingDb,
    /// Ready for requests.
    Operating,
}

/// What the connection asks of its transport next.
#[derive(Debug, Clone, Copy, PartialEq, Eq)]
pub enum Next {
    /// Wake up once the input holds at least this many bytes.
    ExpectBytes(usize),
    /// Wake up once a CR LF arrives after this offset of the input.
    ExpectDelimiterAfter(usize),
    /// Close the connection.
    Close,
}

/// The outcome of reading input: how many bytes to drop from the front
/// of the input, and what to wait for next.
#[derive(Debug, Clone, Copy, PartialEq, Eq)]
pub struct ReadStep {
    pub consumed: usize,
    pub next: Next,
}

/// A decoded reply together with the port of the request it answers.
pub struct Delivery<'a, T> {
    pub port: Port<T>,
    pub reply: Message<'a>,
}

impl<'a, T: PortImpl> Delivery<'a, T> {
    /// Hands the reply to its request, and gives back the request's
    /// receiver, which has taken the reply.
    pub fn deliver(self) -> (target: T)
        ensures
            target.replies() == self.port.0.replies().push(self.reply.model()),
    {
        self.port.put(&self.reply)
    }
}

/// The receiver of the answer to `SELECT`: whether the server's first
/// reply was `+OK`.
pub struct SelectAnswer {
    answer: Option<bool>,
    seen: Ghost<Seq<MessageModel>>,
}

impl SelectAnswer {
    #[verifier::type_invariant]
    spec fn answers_first_reply(self) -> bool {
        self.answer == (if self.seen@.len() == 0 {
            None::<bool>
        } else {
            Some(self.seen@[0] == ok_reply())
        })
    }

    /// Waiting for its reply.
    pub fn new() -> (a: SelectAnswer)
        ensures
            a.replies() == Seq::<MessageModel>::empty(),
    {
        SelectAnswer { answer: None, seen: Ghost(Seq::empty()) }
    }

    /// Whether the database was accepted, once the reply came.
    pub fn answer(&self) -> (r: Option<bool>)
        ensures
            r == (if self.replies().len() == 0 {
                None::<bool>
            } else {
                Some(self.replies()[0] == ok_reply())
            }),
    {
        proof {
            use_type_invariant(self);
        }
        self.answer
    }
}

impl PortImpl for SelectAnswer {
    closed spec fn replies(&self) -> Seq<MessageModel> {
        self.seen@
    }

    fn put(&mut self, message: &Message) {
        proof {
            use_type_invariant(&*self);
        }
        let answer = match self.answer {
            Some(a) => Some(a),
            None => Some(is_ok_reply(message)),
        };
        let ghost seen = self.seen@.push(message.model());
        *self = SelectAnswer { answer, seen: Ghost(seen) };
    }
}

/// A connection as a mathematical value.
pub struct ProtoModel<T> {
    /// Ports of the requests sent and not answered yet, oldest first.
    pub pipeline: Seq<Port<T>>,
    /// The database that the connection selects.
    pub db: u32,
    pub state: State,
}

/// The things that happen to a connection, one per step.
pub enum Event<T> {
    /// The socket connected: the `SELECT` command is sent with this port.
    Select(Port<T>),
    /// A command is sent with this port.
    Send(Port<T>),
    /// Woken up, with the server's answer to `SELECT` once it came.
    Wake(Option<bool>),
    /// Input arrived: these bytes, read under this largest reply size.
    Read(Seq<u8>, nat),
}

/// The `SELECT` command that chooses database `db`.
pub open spec fn select_args(db: u32) -> Seq<Seq<u8>> {
    seq![seq![83u8, 69u8, 76u8, 69u8, 67u8, 84u8], decimal(db as nat)]
}

/// The reply `+OK`.
pub open spec fn ok_reply() -> MessageModel {
    MessageModel::Simple(seq![79u8, 75u8])
}

/// The input starts with a whole reply no longer than `max` bytes.
pub open spec fn read_delivers(input: Seq<u8>, max: nat) -> bool {
    parse_outcome(input) matches ParseOutcome::Done(_, n) && n <= max
}

/// What reading `input` decides, when replies may take at most `max`
/// bytes: a reply that is, or announces that it will be, longer than that
/// closes the connection.
pub open spec fn read_decision(input: Seq<u8>, max: nat) -> ReadStep {
    match parse_outcome(input) {
        ParseOutcome::Done(_, n) => if n <= max {
            ReadStep { consumed: n as usize, next: Next::ExpectBytes(1) }
        } else {
            ReadStep { consumed: 0, next: Next::Close }
        },
        ParseOutcome::ExpectNewline => if input.len() < max {
            ReadStep { consumed: 0, next: Next::ExpectDelimiterAfter((input.len() - 1) as usize) }
        } else {
            ReadStep { consumed: 0, next: Next::Close }
        },
        ParseOutcome::ExpectMore(x) => if x <= max {
            ReadStep { consumed: 0, next: Next::ExpectBytes(x as usize) }
        } else {
            ReadStep { consumed: 0, next: Next::Close }
        },
        ParseOutcome::InvalidData => ReadStep { consumed: 0, next: Next::Close },
    }
}

/// What a wake-up decides.
pub open spec fn wake_decision(state: State, select_reply: Option<bool>) -> Next {
    if state == State::SettingDb && select_reply == Some(false) {
        Next::Close
    } else {
        Next::ExpectBytes(1)
    }
}

/// The connection after an event.
pub open spec fn next_model<T>(m: ProtoModel<T>, e: Event<T>) -> ProtoModel<T> {
    match e {
        Event::Select(p) => if m.state == State::Connecting {
            ProtoModel { pipeline: m.pipeline.push(p), db: m.db, state: State::SettingDb }
        } else {
            m
        },
        Event::Send(p) => ProtoModel { pipeline: m.pipeline.push(p), db: m.db, state: m.state },
        Event::Wake(r) => if m.state == State::SettingDb && r == Some(true) {
            ProtoModel { pipeline: m.pipeline, db: m.db, state: State::Operating }
        } else {
            m
        },
        Event::Read(input, max) => if read_delivers(input, max) && m.pipeline.len() > 0 {
            ProtoModel { pipeline: m.pipeline.drop_first(), db: m.db, state: m.state }
        } else {
            m
        },
    }
}

/// The port, if any, that an event hands a reply to.
pub open spec fn delivered_to<T>(m: ProtoModel<T>, e: Event<T>) -> Option<Port<T>> {
    match e {
        Event::Read(input, max) => if read_delivers(input, max) && m.pipeline.len() > 0 {
            Some(m.pipeline[0])
        } else {
            None
        },
        _ => None,
    }
}

/// The port, if any, that an event queues.
pub open spec fn queued_by<T>(m: ProtoModel<T>, e: Event<T>) -> Option<Port<T>> {
    match e {
        Event::Select(p) => if m.state == State::Connecting {
            Some(p)
        } else {
            None
        },
        Event::Send(p) => Some(p),
        _ => None,
    }
}

/// The connection after a run of events.
pub open spec fn run<T>(m: ProtoModel<T>, es: Seq<Event<T>>) -> ProtoModel<T>
    decreases es.len(),
{
    if es.len() == 0 {
        m
    } else {
        next_model(run(m, es.drop_last()), es.last())
    }
}

/// The ports that a run of events handed replies to, in order.
pub open spec fn run_delivered<T>(m: ProtoModel<T>, es: Seq<Event<T>>) -> Seq<Port<T>>
    decreases es.len(),
{
    if es.len() == 0 {
        Seq::empty()
    } else {
        let earlier = run_delivered(m, es.drop_last());
        match delivered_to(run(m, es.drop_last()), es.last()) {
            Some(p) => earlier.push(p),
            None => earlier,
        }
    }
}

/// The ports that a run of events queued, in order.
pub open spec fn run_queued<T>(m: ProtoModel<T>, es: Seq<Event<T>>) -> Seq<Port<T>>
    decreases es.len(),
{
    if es.len() == 0 {
        Seq::empty()
    } else {
        let earlier = run_queued(m, es.drop_last());
        match queued_by(run(m, es.drop_last()), es.last()) {
            Some(p) => earlier.push(p),
            None => earlier,
        }
    }
}

/// How far a state is along the start-up.
pub open spec fn stage(s: State) -> int {
    match s {
        State::Connecting => 0,
        State::SettingDb => 1,
        State::Operating => 2,
    }
}

/// Replies reach requests in the order the requests were queued: the ports
/// that were waiting and those queued since, in order, are the ports that
/// got replies followed by those still waiting. So the `i`-th reply goes
/// to the `i`-th request, and each request gets one reply at most.
pub proof fn law_replies_follow_requests<T>(m: ProtoModel<T>, es: Seq<Event<T>>)
    ensures
        m.pipeline + run_queued(m, es) == run_delivered(m, es) + run(m, es).pipeline,
        forall|i: int|
            0 <= i < run_delivered(m, es).len() ==> #[trigger] run_delivered(m, es)[i] == (m.pipeline
                + run_queued(m, es))[i],
    decreases es.len(),
{
    if es.len() > 0 {
        let es0 = es.drop_last();
        law_replies_follow_requests(m, es0);
        let before = run(m, es0);
        let e = es.last();
        match e {
            Event::Read(input, max) => {
                if read_delivers(input, max) && before.pipeline.len() > 0 {
                    assert(run_delivered(m, es0).push(before.pipeline[0])
                        + before.pipeline.drop_first() =~= run_delivered(m, es0)
                        + before.pipeline);
                }
            },
            Event::Select(p) => {
                if before.state == State::Connecting {
                    assert(m.pipeline + run_queued(m, es0).push(p) =~= (m.pipeline + run_queued(
                        m,
                        es0,
                    )).push(p));
                    assert(run_delivered(m, es0) + before.pipeline.push(p) =~= (run_delivered(
                        m,
                        es0,
                    ) + before.pipeline).push(p));
                }
            },
            Event::Send(p) => {
                assert(m.pipeline + run_queued(m, es0).push(p) =~= (m.pipeline + run_queued(
                    m,
                    es0,
                )).push(p));
                assert(run_delivered(m, es0) + before.pipeline.push(p) =~= (run_delivered(m, es0)
                    + before.pipeline).push(p));
            },
            Event::Wake(_) => {},
        }
    }
    let all = m.pipeline + run_queued(m, es);
    let d = run_delivered(m, es);
    assert forall|i: int| 0 <= i < d.len() implies #[trigger] d[i] == all[i] by {
        assert(all[i] == (d + run(m, es).pipeline)[i]);
    }
}

/// The start-up only moves forward (connecting, setting the database,
/// operating) and the database never changes.
pub proof fn law_startup_moves_forward<T>(m: ProtoModel<T>, es: Seq<Event<T>>)
    ensures
        stage(run(m, es).state) >= stage(m.state),
        run(m, es).db == m.db,
    decreases es.len(),
{
    if es.len() > 0 {
        law_startup_moves_forward(m, es.drop_last());
    }
}

/// A connection that was not operating becomes operating only through a
/// wake-up that brings the server's acceptance while it sets the database.
pub proof fn law_operating_needs_acceptance<T>(m: ProtoModel<T>, es: Seq<Event<T>>)
    requires
        m.state != State::Operating,
        run(m, es).state == State::Operating,
    ensures
        exists|i: int|
            0 <= i < es.len() && #[trigger] es[i] == Event::<T>::Wake(Some(true)) && run(
                m,
                es.take(i),
            ).state == State::SettingDb,
    decreases es.len(),
{
    let es0 = es.drop_last();
    assert(es0 =~= es.take(es.len() - 1));
    if run(m, es0).state == State::Operating {
        law_operating_needs_acceptance(m, es0);
        let i = choose|i: int|
            0 <= i < es0.len() && #[trigger] es0[i] == Event::<T>::Wake(Some(true)) && run(
                m,
                es0.take(i),
            ).state == State::SettingDb;
        assert(es0.take(i) =~= es.take(i));
        assert(es[i] == es0[i]);
    } else {
        let i = es.len() - 1;
        assert(es[i] == Event::<T>::Wake(Some(true)));
    }
}

/// A connection that was connecting starts setting the database only by
/// sending `SELECT` while it is connecting.
pub proof fn law_setting_db_needs_select<T>(m: ProtoModel<T>, es: Seq<Event<T>>)
    requires
        m.state == State::Connecting,
        run(m, es).state != State::Connecting,
    ensures
        exists|i: int|
            0 <= i < es.len() && (#[trigger] es[i] is Select) && run(m, es.take(i)).state
                == State::Connecting,
    decreases es.len(),
{
    let es0 = es.drop_last();
    assert(es0 =~= es.take(es.len() - 1));
    if run(m, es0).state != State::Connecting {
        law_setting_db_needs_select(m, es0);
        let i = choose|i: int|
            0 <= i < es0.len() && (#[trigger] es0[i] is Select) && run(m, es0.take(i)).state
                == State::Connecting;
        assert(es0.take(i) =~= es.take(i));
        assert(es[i] == es0[i]);
    } else {
        let i = es.len() - 1;
        assert(es[i] is Select);
    }
}

/// Every whole reply within the limit, whatever its kind (errors too), is
/// consumed and handed to the oldest waiting request, whose port leaves the
/// queue; the connection then waits for the next byte.
pub proof fn law_complete_replies_are_delivered<T>(m: ProtoModel<T>, input: Seq<u8>, max: nat)
    requires
        parse_outcome(input) is Done,
        consumed(parse_outcome(input)) <= max,
        max <= usize::MAX,
        m.pipeline.len() > 0,
    ensures
        read_delivers(input, max),
        read_decision(input, max).consumed == consumed(parse_outcome(input)),
        read_decision(input, max).next == Next::ExpectBytes(1),
        delivered_to(m, Event::Read(input, max)) == Some(m.pipeline[0]),
        next_model(m, Event::Read(input, max)).pipeline == m.pipeline.drop_first(),
        next_model(m, Event::Read(input, max)).state == m.state,
        next_model(m, Event::Read(input, max)).db == m.db,
{
}

/// Input is consumed exactly when a reply is handed over: nothing is
/// dropped undelivered, and nothing is delivered without being consumed.
pub proof fn law_consumed_iff_delivered(input: Seq<u8>, max: nat)
    requires
        consumed(parse_outcome(input)) <= usize::MAX,
    ensures
        (read_decision(input, max).consumed > 0) == read_delivers(input, max),
{
    if parse_outcome(input) is Done {
        crate::search::lemma_first_occurrence(
            input.subrange(1, input.len() as int),
            crate::message::crlf(),
        );
    }
}

/// Reading never closes a connection on a reply it could take: it closes
/// only on bytes that are no reply, or on a reply, whole or announced,
/// longer than the limit.
pub proof fn law_read_closes_only_on_bad_or_large_replies(input: Seq<u8>, max: nat)
    ensures
        read_decision(input, max).next == Next::Close ==> {
            ||| parse_outcome(input) is InvalidData
            ||| (parse_outcome(input) is Done && consumed(parse_outcome(input)) > max)
            ||| (parse_outcome(input) matches ParseOutcome::ExpectMore(x) && x > max)
            ||| (parse_outcome(input) is ExpectNewline && input.len() >= max)
        },
{
}

/// A wake-up closes the connection only when the server refused the
/// database while it was being set, and always then; every other wake-up
/// waits for the next byte.
pub proof fn law_wakeup_closes_only_on_refusal(state: State, select_reply: Option<bool>)
    ensures
        (wake_decision(state, select_reply) == Next::Close) == (state == State::SettingDb
            && select_reply == Some(false)),
        wake_decision(state, select_reply) != Next::Close ==> wake_decision(state, select_reply)
            == Next::ExpectBytes(1),
{
}

/// An operating connection stays as it is on every wake-up and keeps
/// waiting for replies.
pub proof fn law_operating_wakeups_keep_waiting<T>(m: ProtoModel<T>, select_reply: Option<bool>)
    requires
        m.state == State::Operating,
    ensures
        next_model(m, Event::Wake(select_reply)) == m,
        wake_decision(m.state, select_reply) == Next::ExpectBytes(1),
{
}

/// Is this the reply `+OK`?
pub fn is_ok_reply(msg: &Message) -> (r: bool)
    ensures
        r == (msg.model() == ok_reply()),
{
    match msg {
        Message::Simple(s) => {
            let b = s.as_bytes();
            let r = b.len() == 2 && b[0] == 79 && b[1] == 75;
            proof {
                if r {
                    assert(b@ =~= seq![79u8, 75u8]);
                } else if b@.len() == 2 {
                    assert(b@ != seq![79u8, 75u8]);
                }
            }
            r
        },
        _ => false,
    }
}

/// The protocol state of one connection.
pub struct RedisProto<T> {
    pipeline: VecDeque<Port<T>>,
    db: u32,
    state: State,
}

impl<T> View for RedisProto<T> {
    type V = ProtoModel<T>;

    closed spec fn view(&self) -> ProtoModel<T> {
        ProtoModel { pipeline: self.pipeline@, db: self.db, state: self.state }
    }
}

impl<T> RedisProto<T> {
    /// A connection that is yet to connect and will select database `db`.
    pub fn create(db: u32) -> (p: RedisProto<T>)
        ensures
            p@ == (ProtoModel::<T> { pipeline: Seq::empty(), db, state: State::Connecting }),
    {
        RedisProto { pipeline: VecDeque::new(), db, state: State::Connecting }
    }

    /// Has the socket yet to connect?
    pub fn is_connecting(&self) -> (r: bool)
        ensures
            r == (self@.state == State::Connecting),
    {
        match self.state {
            State::Connecting => true,
            _ => false,
        }
    }

    /// The number of requests waiting for replies.
    pub fn pending(&self) -> (n: usize)
        ensures
            n == self@.pipeline.len(),
    {
        self.pipeline.len()
    }

    /// Once connected, writes the `SELECT` command for the database and
    /// queues the port that waits for its reply.
    pub fn select_db(&mut self, output: &mut Buf, port: Port<T>)
        requires
            old(self)@.state == State::Connecting,
            buf_bytes(*old(output)).len() + encode_command(select_args(old(self)@.db)).len()
                <= BUF_LIMIT,
        ensures
            buf_bytes(*final(output)) == buf_bytes(*old(output)) + encode_command(
                select_args(old(self)@.db),
            ),
            final(self)@ == next_model(old(self)@, Event::Select(port)),
    {
        let name: [u8; 6] = [83u8, 69u8, 76u8, 69u8, 67u8, 84u8];
        let mut number: Vec<u8> = Vec::new();
        push_decimal(&mut number, self.db as usize);
        assert(number@ =~= decimal(self.db as nat));
        let command = (&name, number);
        assert(command.command_args() =~= select_args(self.db));
        command.write_into(output);
        self.pipeline.push_back(port);
        self.state = State::SettingDb;
    }

    /// Writes a command and queues the port that waits for its reply.
    pub fn send<C: ToRedisCommand>(&mut self, output: &mut Buf, command: C, port: Port<T>)
        requires
            buf_bytes(*old(output)).len() + encode_command(command.command_args()).len()
                <= BUF_LIMIT,
        ensures
            buf_bytes(*final(output)) == buf_bytes(*old(output)) + encode_command(
                command.command_args(),
            ),
            final(self)@ == next_model(old(self)@, Event::Send(port)),
    {
        command.write_into(output);
        self.pipeline.push_back(port);
    }

    /// Woken up: `select_reply` is whether the server accepted the
    /// database, once its reply has arrived.
    pub fn wakeup(&mut self, select_reply: Option<bool>) -> (next: Next)
        ensures
            final(self)@ == next_model(old(self)@, Event::Wake(select_reply)),
            next == wake_decision(old(self)@.state, select_reply),
    {
        match self.state {
            State::SettingDb => match select_reply {
                Some(true) => {
                    self.state = State::Operating;
                    Next::ExpectBytes(1)
                },
                Some(false) => Next::Close,
                None => Next::ExpectBytes(1),
            },
            _ => Next::ExpectBytes(1),
        }
    }

    /// New input arrived. Decodes a reply from its start and hands back,
    /// with the reply, the port of the oldest waiting request, which the
    /// reply answers; or says what more the decoder needs. Replies longer
    /// than `max_message` bytes close the connection.
    pub fn bytes_read<'a>(&mut self, input: &'a [u8], max_message: usize) -> (r: (
        ReadStep,
        Option<Delivery<'a, T>>,
    ))
        requires
            parse_is_defined(input@),
            read_delivers(input@, max_message as nat) ==> old(self)@.pipeline.len() > 0,
        ensures
            r.0 == read_decision(input@, max_message as nat),
            final(self)@ == next_model(old(self)@, Event::Read(input@, max_message as nat)),
            r.1 is Some <==> read_delivers(input@, max_message as nat),
            r.1 matches Some(d) ==> {
                &&& d.port == old(self)@.pipeline[0]
                &&& d.reply.model() == parse_outcome(input@)->Done_0
            },
    {
        match Message::parse(input) {
            ParseResult::Done(msg, bytes) => {
                if bytes <= max_message {
                    let port = self.pipeline.pop_front().unwrap();
                    (
                        ReadStep { consumed: bytes, next: Next::ExpectBytes(1) },
                        Some(Delivery { port, reply: msg }),
                    )
                } else {
                    (ReadStep { consumed: 0, next: Next::Close }, None)
                }
            },
            ParseResult::Expect(Expectation::Newline) => {
                if input.len() < max_message {
                    (
                        ReadStep {
                            consumed: 0,
                            next: Next::ExpectDelimiterAfter(input.len() - 1),
                        },
                        None,
                    )
                } else {
                    (ReadStep { consumed: 0, next: Next::Close }, None)
                }
            },
            ParseResult::Expect(Expectation::More(x)) => {
                if x <= max_message {
                    (ReadStep { consumed: 0, next: Next::ExpectBytes(x) }, None)
                } else {
                    (ReadStep { consumed: 0, next: Next::Close }, None)
                }
            },
            ParseResult::InvalidData => (ReadStep { consumed: 0, next: Next::Close }, None),
        }
    }
}

} // verus!
