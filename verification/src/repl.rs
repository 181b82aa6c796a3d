//! The raw-execution protocol of one device, as a state machine.
//!
//! A [`Repl`] never touches the serial line. Each of its methods answers
//! with the [`Action`] that the caller is to perform next, and the caller
//! reports what came of it as an [`Event`] to [`Repl::resume`], until the
//! action is [`Action::Finished`].
//!
//! Starting up: write two interrupt bytes, write the byte that enters
//! raw-execution mode, then read and discard until the line falls silent.
//! Running code: write the code, write the end-of-transmission byte, then
//! read until the line falls silent. What was read is the response.

use serialport::SerialPortBuilder;
use std::time::Duration;
use vstd::prelude::*;

verus! {

/// Stops whatever the device is running.
pub const INTERRUPT: u8 = 0x03;

/// Puts the device's shell into raw-execution mode.
pub const ENTER_RAW_MODE: u8 = 0x01;

/// Ends the code that was sent.
pub const END_OF_TRANSMISSION: u8 = 0x04;

/// The speed of the serial line.
pub const BAUD_RATE: u32 = 115_200;

/// How long a read waits for a byte, in milliseconds.
pub const TIMEOUT_MILLIS: u64 = 10;

/// The first byte of a response that reports success.
pub const LETTER_O: u8 = 0x4f;

/// The second byte of a response that reports success.
pub const LETTER_K: u8 = 0x4b;

/// The length of the status at the head of a response.
pub const PREFIX_LEN: usize = 2;

/// The length of the markers at the tail of a response.
pub const TRAILER_LEN: usize = 4;

/// How far a session has come.
#[derive(Clone, Copy, Debug, PartialEq, Eq, Structural)]
pub enum SessionState {
    /// The device is not in raw-execution mode yet.
    Idle,
    /// The device is in raw-execution mode and accepts code.
    RawMode,
    /// The connection is lost.
    Closed,
}

/// What a session waits for.
#[derive(Clone, Copy, Debug, PartialEq, Eq, Structural)]
pub enum Pending {
    /// Nothing: no operation is under way.
    Nothing,
    /// The device to be opened.
    Open,
    /// The interrupt bytes to be written.
    Interrupt,
    /// The raw-mode byte to be written.
    EnterRaw,
    /// The line to fall silent, while what arrives is discarded.
    Drain,
    /// The code to be written.
    Code,
    /// The end-of-transmission byte to be written.
    EndOfTransmission,
    /// The line to fall silent, while what arrives is kept.
    Response,
}

/// Why a session could not deliver a result.
#[derive(Debug)]
pub enum SessionError {
    /// The device could not be opened, or the startup handshake failed.
    Connect,
    /// The device answered, but not with a well-framed success; the whole
    /// raw response is kept for diagnosis.
    Protocol(Vec<u8>),
    /// The connection is lost, or the session was not ready for the request.
    Transport,
}

/// What the caller is to do next.
#[derive(Debug)]
pub enum Action {
    /// Open the serial device.
    Open { path: String, baud_rate: u32, timeout_millis: u64 },
    /// Write these bytes to the device.
    Write(Vec<u8>),
    /// Read what the device has sent, waiting no longer than the timeout.
    Read,
    /// Nothing more: the operation has ended with this result.
    Finished(Result<Vec<u8>, SessionError>),
}

/// What came of the last action.
#[derive(Debug)]
pub enum Event {
    /// The device is open.
    Opened,
    /// The bytes are written.
    Written,
    /// These bytes arrived. No bytes at all means that the line has ended.
    Received(Vec<u8>),
    /// No byte arrived within the timeout: the line has fallen silent.
    TimedOut,
    /// The action failed for any other reason.
    Failed,
}

/// What a [`SessionError`] says.
pub enum Failure {
    Connect,
    Protocol(Seq<u8>),
    Transport,
}

/// What an [`Action`] says.
pub enum Step {
    Open { path: Seq<char>, baud_rate: u32, timeout_millis: u64 },
    Write(Seq<u8>),
    Read,
    Finished(Result<Seq<u8>, Failure>),
}

/// What an [`Event`] says.
pub enum Input {
    Opened,
    Written,
    Received(Seq<u8>),
    TimedOut,
    Failed,
}

/// What a [`Repl`] holds: its state, what it waits for, and the bytes of
/// the response read so far.
pub struct Session {
    pub state: SessionState,
    pub pending: Pending,
    pub received: Seq<u8>,
}

impl View for SessionError {
    type V = Failure;

    open spec fn view(&self) -> Failure {
        match self {
            SessionError::Connect => Failure::Connect,
            SessionError::Protocol(raw) => Failure::Protocol(raw@),
            SessionError::Transport => Failure::Transport,
        }
    }
}

/// What the result of an operation says.
pub open spec fn outcome_view(outcome: Result<Vec<u8>, SessionError>) -> Result<Seq<u8>, Failure> {
    match outcome {
        Ok(payload) => Ok(payload@),
        Err(e) => Err(e@),
    }
}

impl View for Action {
    type V = Step;

    open spec fn view(&self) -> Step {
        match self {
            Action::Open { path, baud_rate, timeout_millis } => Step::Open {
                path: path@,
                baud_rate: *baud_rate,
                timeout_millis: *timeout_millis,
            },
            Action::Write(bytes) => Step::Write(bytes@),
            Action::Read => Step::Read,
            Action::Finished(outcome) => Step::Finished(outcome_view(*outcome)),
        }
    }
}

impl View for Event {
    type V = Input;

    open spec fn view(&self) -> Input {
        match self {
            Event::Opened => Input::Opened,
            Event::Written => Input::Written,
            Event::Received(bytes) => Input::Received(bytes@),
            Event::TimedOut => Input::TimedOut,
            Event::Failed => Input::Failed,
        }
    }
}

/// What a raw response delivers. A response that begins with `OK` and has
/// room for the markers at its tail delivers what lies between; any other
/// response is a failure that carries the whole response.
pub open spec fn response_of(raw: Seq<u8>) -> Result<Seq<u8>, Failure> {
    if raw.len() >= PREFIX_LEN + TRAILER_LEN && raw[0] == LETTER_O && raw[1] == LETTER_K {
        Ok(raw.subrange(PREFIX_LEN as int, raw.len() - TRAILER_LEN))
    } else {
        Err(Failure::Protocol(raw))
    }
}

impl Session {
    /// A session on which nothing has happened yet.
    pub open spec fn idle() -> Session {
        Session { state: SessionState::Idle, pending: Pending::Nothing, received: Seq::empty() }
    }

    /// A session in raw-execution mode with no operation under way.
    pub open spec fn ready() -> Session {
        Session { state: SessionState::RawMode, pending: Pending::Nothing, received: Seq::empty() }
    }

    /// A session whose connection is lost.
    pub open spec fn closed() -> Session {
        Session { state: SessionState::Closed, pending: Pending::Nothing, received: Seq::empty() }
    }

    /// The same session, waiting for something else.
    pub open spec fn awaiting(self, pending: Pending) -> Session {
        Session { state: self.state, pending, received: self.received }
    }

    /// The session accepts code.
    pub open spec fn is_ready(self) -> bool {
        self.state == SessionState::RawMode && self.pending == Pending::Nothing
    }

    /// A session that is about to open a device, and the request to open it.
    pub open spec fn connecting(path: Seq<char>) -> (Session, Step) {
        (
            Session::idle().awaiting(Pending::Open),
            Step::Open { path, baud_rate: BAUD_RATE, timeout_millis: TIMEOUT_MILLIS },
        )
    }

    /// The beginning of the startup sequence. A session with an operation
    /// under way, or a closed one, refuses and stays as it is.
    pub open spec fn begin_start(self) -> (Session, Step) {
        if self.pending == Pending::Nothing && self.state != SessionState::Closed {
            (
                Session::idle().awaiting(Pending::Interrupt),
                Step::Write(seq![INTERRUPT, INTERRUPT]),
            )
        } else {
            (self, Step::Finished(Err(Failure::Connect)))
        }
    }

    /// The beginning of a run of code. A session that is not ready refuses
    /// and stays as it is.
    pub open spec fn begin_run(self, code: Seq<u8>) -> (Session, Step) {
        if self.is_ready() {
            (Session::ready().awaiting(Pending::Code), Step::Write(code))
        } else {
            (self, Step::Finished(Err(Failure::Transport)))
        }
    }

    /// The line has fallen silent or has ended.
    pub open spec fn is_end_of_data(input: Input) -> bool {
        input is TimedOut || (input is Received && input->Received_0.len() == 0)
    }

    /// The session after an event, and the next action.
    ///
    /// While an operation is under way, the awaited event moves it on, and
    /// any other event closes the session: the startup sequence then ends
    /// with a connect failure, a run of code with a transport failure. With
    /// no operation under way every event is refused.
    pub open spec fn next(self, input: Input) -> (Session, Step) {
        match self.pending {
            Pending::Nothing => (self, Step::Finished(Err(Failure::Transport))),
            Pending::Open => if input is Opened {
                (self.awaiting(Pending::Interrupt), Step::Write(seq![INTERRUPT, INTERRUPT]))
            } else {
                (Session::closed(), Step::Finished(Err(Failure::Connect)))
            },
            Pending::Interrupt => if input is Written {
                (self.awaiting(Pending::EnterRaw), Step::Write(seq![ENTER_RAW_MODE]))
            } else {
                (Session::closed(), Step::Finished(Err(Failure::Connect)))
            },
            Pending::EnterRaw => if input is Written {
                (self.awaiting(Pending::Drain), Step::Read)
            } else {
                (Session::closed(), Step::Finished(Err(Failure::Connect)))
            },
            Pending::Drain => if Session::is_end_of_data(input) {
                (Session::ready(), Step::Finished(Ok(Seq::empty())))
            } else if input is Received {
                (self, Step::Read)
            } else {
                (Session::closed(), Step::Finished(Err(Failure::Connect)))
            },
            Pending::Code => if input is Written {
                (
                    self.awaiting(Pending::EndOfTransmission),
                    Step::Write(seq![END_OF_TRANSMISSION]),
                )
            } else {
                (Session::closed(), Step::Finished(Err(Failure::Transport)))
            },
            Pending::EndOfTransmission => if input is Written {
                (Session::ready().awaiting(Pending::Response), Step::Read)
            } else {
                (Session::closed(), Step::Finished(Err(Failure::Transport)))
            },
            Pending::Response => if Session::is_end_of_data(input) {
                (Session::ready(), Step::Finished(response_of(self.received)))
            } else if input is Received {
                (
                    Session {
                        state: self.state,
                        pending: self.pending,
                        received: self.received + input->Received_0,
                    },
                    Step::Read,
                )
            } else {
                (Session::closed(), Step::Finished(Err(Failure::Transport)))
            },
        }
    }

    /// The session after a run of arrivals, taken in order.
    pub open spec fn feed(self, chunks: Seq<Seq<u8>>) -> Session
        decreases chunks.len(),
    {
        if chunks.len() == 0 {
            self
        } else {
            self.feed(chunks.drop_last()).next(Input::Received(chunks.last())).0
        }
    }
}

/// The settings of a serial port that is about to be opened.
#[verifier::external_type_specification]
#[verifier::external_body]
pub struct ExSerialPortBuilder(SerialPortBuilder);

/// The settings that `serialport::new` makes for the port at a path with a
/// baud rate. They depend on the path and the baud rate alone; everything
/// else in them is the outside crate's default.
pub uninterp spec fn settings_for(path: Seq<char>, baud_rate: u32) -> SerialPortBuilder;

/// The settings that `SerialPortBuilder::timeout` makes of given settings
/// and a time, in milliseconds, for which a read waits for data. They
/// depend on those two alone.
pub uninterp spec fn settings_with_timeout(
    settings: SerialPortBuilder,
    timeout_millis: u64,
) -> SerialPortBuilder;

/// Calls `serialport::new`, which makes the settings for the port at `path`
/// with the given baud rate and leaves the port alone. What the settings
/// hold cannot be read back, so the claim is only that they are the ones
/// that the outside function makes for this path and this baud rate.
#[verifier::external_body]
fn new_port_builder(path: &str, baud_rate: u32) -> (builder: SerialPortBuilder)
    ensures
        builder == settings_for(path@, baud_rate),
{
    serialport::new(path, baud_rate)
}

/// Calls `SerialPortBuilder::timeout`, which sets how long a read waits for
/// data and changes nothing else. The claim is only that the result is what
/// the outside function makes of these settings and this time.
#[verifier::external_body]
fn with_timeout(builder: SerialPortBuilder, timeout_millis: u64) -> (timed: SerialPortBuilder)
    ensures
        timed == settings_with_timeout(builder, timeout_millis),
{
    builder.timeout(Duration::from_millis(timeout_millis))
}

/// The settings with which the caller opens the device of an
/// [`Action::Open`]: those that the serial port crate makes for the
/// action's path and baud rate, with the action's timeout set.
pub fn port_builder(path: &str, baud_rate: u32, timeout_millis: u64) -> (builder: SerialPortBuilder)
    ensures
        builder == settings_with_timeout(settings_for(path@, baud_rate), timeout_millis),
{
    with_timeout(new_port_builder(path, baud_rate), timeout_millis)
}

/// One session with one device.
pub struct Repl {
    state: SessionState,
    pending: Pending,
    received: Vec<u8>,
}

impl View for Repl {
    type V = Session;

    closed spec fn view(&self) -> Session {
        Session { state: self.state, pending: self.pending, received: self.received@ }
    }
}

/// Takes a raw response apart.
pub fn decode_response(raw: Vec<u8>) -> (outcome: Result<Vec<u8>, SessionError>)
    ensures
        outcome_view(outcome) == response_of(raw@),
{
    if raw.len() >= PREFIX_LEN + TRAILER_LEN && raw[0] == LETTER_O && raw[1] == LETTER_K {
        let mut payload: Vec<u8> = Vec::new();
        let end = raw.len() - TRAILER_LEN;
        let mut i: usize = PREFIX_LEN;
        while i < end
            invariant
                PREFIX_LEN <= i <= end == raw@.len() - TRAILER_LEN,
                payload@ == raw@.subrange(PREFIX_LEN as int, i as int),
            decreases end - i,
        {
            payload.push(raw[i]);
            proof {
                assert(payload@ == raw@.subrange(PREFIX_LEN as int, i + 1));
            }
            i += 1;
        }
        Ok(payload)
    } else {
        Err(SessionError::Protocol(raw))
    }
}

impl Repl {
    /// A session on which nothing has happened yet.
    pub fn new() -> (repl: Repl)
        ensures
            repl@ == Session::idle(),
    {
        Repl { state: SessionState::Idle, pending: Pending::Nothing, received: Vec::new() }
    }

    /// A session for the serial device at `port_path`, and the request to
    /// open that device. Once the device is open the startup sequence
    /// follows by itself.
    pub fn from_path(port_path: &str) -> (begun: (Repl, Action))
        ensures
            (begun.0@, begun.1@) == Session::connecting(port_path@),
    {
        (
            Repl { state: SessionState::Idle, pending: Pending::Open, received: Vec::new() },
            Action::Open {
                path: port_path.to_owned(),
                baud_rate: BAUD_RATE,
                timeout_millis: TIMEOUT_MILLIS,
            },
        )
    }

    /// Begins the startup sequence.
    pub fn start(&mut self) -> (action: Action)
        ensures
            (final(self)@, action@) == old(self)@.begin_start(),
    {
        if self.pending == Pending::Nothing && self.state != SessionState::Closed {
            self.state = SessionState::Idle;
            self.pending = Pending::Interrupt;
            self.received = Vec::new();
            Action::Write(interrupt_bytes())
        } else {
            Action::Finished(Err(SessionError::Connect))
        }
    }

    /// Begins a run of `code` on the device.
    pub fn run(&mut self, code: &[u8]) -> (action: Action)
        ensures
            (final(self)@, action@) == old(self)@.begin_run(code@),
    {
        if self.state == SessionState::RawMode && self.pending == Pending::Nothing {
            self.pending = Pending::Code;
            self.received = Vec::new();
            Action::Write(vstd::slice::slice_to_vec(code))
        } else {
            Action::Finished(Err(SessionError::Transport))
        }
    }

    /// Takes what came of the last action and says what to do next.
    pub fn resume(&mut self, event: Event) -> (action: Action)
        ensures
            (final(self)@, action@) == old(self)@.next(event@),
    {
        let end_of_data = match &event {
            Event::TimedOut => true,
            Event::Received(bytes) => bytes.len() == 0,
            _ => false,
        };
        match self.pending {
            Pending::Nothing => Action::Finished(Err(SessionError::Transport)),
            Pending::Open => match event {
                Event::Opened => {
                    self.pending = Pending::Interrupt;
                    Action::Write(interrupt_bytes())
                },
                _ => self.close(SessionError::Connect),
            },
            Pending::Interrupt => match event {
                Event::Written => {
                    self.pending = Pending::EnterRaw;
                    Action::Write(single_byte(ENTER_RAW_MODE))
                },
                _ => self.close(SessionError::Connect),
            },
            Pending::EnterRaw => match event {
                Event::Written => {
                    self.pending = Pending::Drain;
                    Action::Read
                },
                _ => self.close(SessionError::Connect),
            },
            Pending::Drain => if end_of_data {
                self.settle();
                Action::Finished(Ok(Vec::new()))
            } else {
                match event {
                    Event::Received(_) => Action::Read,
                    _ => self.close(SessionError::Connect),
                }
            },
            Pending::Code => match event {
                Event::Written => {
                    self.pending = Pending::EndOfTransmission;
                    Action::Write(single_byte(END_OF_TRANSMISSION))
                },
                _ => self.close(SessionError::Transport),
            },
            Pending::EndOfTransmission => match event {
                Event::Written => {
                    self.state = SessionState::RawMode;
                    self.pending = Pending::Response;
                    self.received = Vec::new();
                    Action::Read
                },
                _ => self.close(SessionError::Transport),
            },
            Pending::Response => if end_of_data {
                let mut raw: Vec<u8> = Vec::new();
                core::mem::swap(&mut self.received, &mut raw);
                self.settle();
                Action::Finished(decode_response(raw))
            } else {
                match event {
                    Event::Received(bytes) => {
                        let mut bytes = bytes;
                        self.received.append(&mut bytes);
                        Action::Read
                    },
                    _ => self.close(SessionError::Transport),
                }
            },
        }
    }

    /// How far the session has come.
    pub fn state(&self) -> (state: SessionState)
        ensures
            state == self@.state,
    {
        self.state
    }

    /// What the session waits for.
    pub fn pending(&self) -> (pending: Pending)
        ensures
            pending == self@.pending,
    {
        self.pending
    }

    /// Whether the session accepts code.
    pub fn is_ready(&self) -> (ready: bool)
        ensures
            ready == self@.is_ready(),
    {
        self.state == SessionState::RawMode && self.pending == Pending::Nothing
    }

    /// Ends the operation under way with a failure; the connection counts
    /// as lost.
    fn close(&mut self, error: SessionError) -> (action: Action)
        ensures
            final(self)@ == Session::closed(),
            action@ == Step::Finished(Err(error@)),
    {
        self.state = SessionState::Closed;
        self.pending = Pending::Nothing;
        self.received = Vec::new();
        Action::Finished(Err(error))
    }

    /// Ends the operation under way with the device ready for code.
    fn settle(&mut self)
        ensures
            final(self)@ == Session::ready(),
    {
        self.state = SessionState::RawMode;
        self.pending = Pending::Nothing;
        self.received = Vec::new();
    }
}

/// The two bytes that stop whatever the device is running.
fn interrupt_bytes() -> (bytes: Vec<u8>)
    ensures
        bytes@ == seq![INTERRUPT, INTERRUPT],
{
    let mut bytes: Vec<u8> = Vec::new();
    bytes.push(INTERRUPT);
    bytes.push(INTERRUPT);
    proof {
        assert(bytes@ =~= seq![INTERRUPT, INTERRUPT]);
    }
    bytes
}

/// One byte on its own.
fn single_byte(byte: u8) -> (bytes: Vec<u8>)
    ensures
        bytes@ == seq![byte],
{
    let mut bytes: Vec<u8> = Vec::new();
    bytes.push(byte);
    proof {
        assert(bytes@ =~= seq![byte]);
    }
    bytes
}

} // verus!

verus! {

/// While a response is awaited, arrivals add up: after any run of arrivals
/// the session holds their bytes in order, however they were cut up.
pub proof fn lemma_arrivals_accumulate(session: Session, chunks: Seq<Seq<u8>>)
    requires
        session.pending == Pending::Response,
        forall|i: int| 0 <= i < chunks.len() ==> (#[trigger] chunks[i]).len() > 0,
    ensures
        session.feed(chunks) == (Session {
            state: session.state,
            pending: session.pending,
            received: session.received + chunks.flatten(),
        }),
    decreases chunks.len(),
{
    if chunks.len() == 0 {
        assert(session.received + chunks.flatten() =~= session.received);
    } else {
        let earlier = chunks.drop_last();
        lemma_arrivals_accumulate(session, earlier);
        assert(chunks == earlier.push(chunks.last()));
        earlier.lemma_flatten_push(chunks.last());
        assert(session.received + earlier.flatten() + chunks.last() =~= session.received
            + chunks.flatten());
    }
}

/// The result of a run does not depend on how the response arrived: two
/// runs of arrivals with the same bytes in the same order end alike, with
/// what the whole response delivers.
pub proof fn lemma_response_ignores_chunking(
    session: Session,
    first: Seq<Seq<u8>>,
    second: Seq<Seq<u8>>,
)
    requires
        session.pending == Pending::Response,
        forall|i: int| 0 <= i < first.len() ==> (#[trigger] first[i]).len() > 0,
        forall|i: int| 0 <= i < second.len() ==> (#[trigger] second[i]).len() > 0,
        first.flatten() == second.flatten(),
    ensures
        session.feed(first).next(Input::TimedOut) == session.feed(second).next(Input::TimedOut),
        session.feed(first).next(Input::TimedOut) == (
            Session::ready(),
            Step::Finished(response_of(session.received + first.flatten())),
        ),
{
    lemma_arrivals_accumulate(session, first);
    lemma_arrivals_accumulate(session, second);
}

/// A run on a ready session asks for the code to be written, then the
/// end-of-transmission byte, then for reads; when the line falls silent it
/// ends with what the response delivers, and the session is ready again.
pub proof fn lemma_run_delivers_response(session: Session, code: Seq<u8>, chunks: Seq<Seq<u8>>)
    requires
        session.is_ready(),
        forall|i: int| 0 <= i < chunks.len() ==> (#[trigger] chunks[i]).len() > 0,
    ensures
        ({
            let sent = session.begin_run(code);
            let marked = sent.0.next(Input::Written);
            let listening = marked.0.next(Input::Written);
            let heard = listening.0.feed(chunks);
            &&& sent.1 == Step::Write(code)
            &&& marked.1 == Step::Write(seq![END_OF_TRANSMISSION])
            &&& listening.1 == Step::Read
            &&& heard.next(Input::TimedOut) == (
                Session::ready(),
                Step::Finished(response_of(chunks.flatten())),
            )
        }),
{
    let listening = session.begin_run(code).0.next(Input::Written).0.next(Input::Written);
    lemma_arrivals_accumulate(listening.0, chunks);
    assert(Seq::<u8>::empty() + chunks.flatten() =~= chunks.flatten());
}

/// While the line is drained, arrivals change nothing.
pub proof fn lemma_drain_discards(session: Session, chunks: Seq<Seq<u8>>)
    requires
        session.pending == Pending::Drain,
        forall|i: int| 0 <= i < chunks.len() ==> (#[trigger] chunks[i]).len() > 0,
    ensures
        session.feed(chunks) == session,
    decreases chunks.len(),
{
    if chunks.len() > 0 {
        lemma_drain_discards(session, chunks.drop_last());
    }
}

/// Connecting asks for the device to be opened, then for the two interrupt
/// bytes, then for the raw-mode byte, then for reads; whatever arrives is
/// discarded, and when the line falls silent the session is ready.
pub proof fn lemma_connect_reaches_raw_mode(path: Seq<char>, chunks: Seq<Seq<u8>>)
    requires
        forall|i: int| 0 <= i < chunks.len() ==> (#[trigger] chunks[i]).len() > 0,
    ensures
        ({
            let asked = Session::connecting(path);
            let opened = asked.0.next(Input::Opened);
            let interrupted = opened.0.next(Input::Written);
            let entered = interrupted.0.next(Input::Written);
            let drained = entered.0.feed(chunks);
            &&& asked.1 == Step::Open { path, baud_rate: BAUD_RATE, timeout_millis: TIMEOUT_MILLIS }
            &&& opened.1 == Step::Write(seq![INTERRUPT, INTERRUPT])
            &&& interrupted.1 == Step::Write(seq![ENTER_RAW_MODE])
            &&& entered.1 == Step::Read
            &&& drained.next(Input::TimedOut) == (
                Session::ready(),
                Step::Finished(Ok::<Seq<u8>, Failure>(Seq::empty())),
            )
        }),
{
    let entered = Session::connecting(path).0.next(Input::Opened).0.next(Input::Written).0.next(
        Input::Written,
    );
    lemma_drain_discards(entered.0, chunks);
}

/// A failure at any point of an operation closes the session, and a closed
/// session refuses to start and to run.
pub proof fn lemma_failure_closes(session: Session, code: Seq<u8>)
    requires
        session.pending != Pending::Nothing,
    ensures
        session.next(Input::Failed).0 == Session::closed(),
        session.next(Input::Failed).1 is Finished,
        session.next(Input::Failed).1->Finished_0 is Err,
        Session::closed().begin_run(code) == (
            Session::closed(),
            Step::Finished(Err::<Seq<u8>, Failure>(Failure::Transport)),
        ),
        Session::closed().begin_start() == (
            Session::closed(),
            Step::Finished(Err::<Seq<u8>, Failure>(Failure::Connect)),
        ),
{
}

} // verus!
