//! The control plane of the debug server: what each command does to the
//! machine and the breakpoints, and what is sent back.
//!
//! The server itself only moves bytes. It hands each command it receives to
//! [`Debugserver::handle_cmd`], sends the frames of the reply, and does what
//! the reply asks next: wait for a command, end the session, call
//! [`Debugserver::resume`] again, or first read a line of input for the
//! machine.

use vstd::prelude::*;
use vstd::string::*;
use crate::command::Command;
use crate::host::{Host, HostState, Pause, StepEvent, Trap};
use crate::messages::{messages, Message, MessageView, ResponseData, ResponseView};
use crate::program::Program;
use crate::text::{decimal, push_decimal};

verus! {

/// The execution that a command has begun and that is not over yet.
#[derive(Debug, Clone, Copy, PartialEq, Eq, Structural)]
pub enum Pending {
    /// None.
    Nothing,
    /// That of `Run`.
    Run,
    /// That of `Continue`.
    Continue,
    /// That of `Step`, which waits for input.
    Step,
}

/// What the server is to do once it has sent the frames of a reply.
#[derive(Debug, Clone, Copy, PartialEq, Eq, Structural)]
pub enum Next {
    /// Wait for the next command.
    Ready,
    /// End the session.
    Quit,
    /// Call [`Debugserver::resume`]: the machine is still running.
    Resume,
    /// Read a line, hand it to [`Debugserver::feed_input`], and call
    /// [`Debugserver::resume`].
    Input,
}

/// What comes of a command: the frames to send, in order, and what to do
/// next.
#[derive(Debug)]
pub struct Reply {
    pub frames: Vec<Message>,
    pub next: Next,
}

/// A reply, as mathematics.
pub struct ReplyView {
    pub frames: Seq<MessageView>,
    pub next: Next,
}

impl View for Reply {
    type V = ReplyView;

    open spec fn view(&self) -> ReplyView {
        ReplyView { frames: messages(self.frames@), next: self.next }
    }
}

/// The state of a debug session, as mathematics.
pub struct ServerState {
    pub host: HostState,
    pub breakpoints: Seq<usize>,
    pub hit_breakpoint: usize,
    pub pending: Pending,
    pub trap: Option<Trap>,
}

/// `s` without the first element that equals `v`.
pub open spec fn without_first(s: Seq<usize>, v: usize) -> Seq<usize>
    decreases s.len(),
{
    if s.len() == 0 {
        s
    } else if s[0] == v {
        s.skip(1)
    } else {
        seq![s[0]] + without_first(s.skip(1), v)
    }
}

/// The frame that carries one line of text.
pub open spec fn text_frame(content: Seq<char>) -> MessageView {
    MessageView::Response(ResponseView::Text(content))
}

/// A reply of one frame that carries a line of text, after which the server
/// is ready.
pub open spec fn say(content: Seq<char>) -> ReplyView {
    ReplyView { frames: seq![text_frame(content)], next: Next::Ready }
}

/// A reply without frames.
pub open spec fn silent(next: Next) -> ReplyView {
    ReplyView { frames: Seq::empty(), next }
}

/// The line that tells of a new breakpoint.
pub open spec fn added_text(id: nat, address: usize) -> Seq<char> {
    "Breakpint "@ + decimal(id) + " added at "@ + decimal(address as nat)
}

/// The line that tells of a breakpoint removed.
pub open spec fn removed_text(address: usize) -> Seq<char> {
    "Breakpint at "@ + decimal(address as nat) + " removed"@
}

/// The line that tells that there is no such breakpoint.
pub open spec fn absent_text(address: usize) -> Seq<char> {
    "No breakpint at "@ + decimal(address as nat)
}

/// The line that tells where execution met a breakpoint.
pub open spec fn hit_text(address: usize) -> Seq<char> {
    "Hit breakpoint at "@ + decimal(address as nat)
}

impl ServerState {
    /// The state of a session that has just begun: the machine loaded with
    /// `memory`, no breakpoints, nothing under way.
    pub open spec fn initial(memory: Seq<u16>) -> ServerState {
        ServerState {
            host: HostState::initial(memory),
            breakpoints: Seq::empty(),
            hit_breakpoint: 0,
            pending: Pending::Nothing,
            trap: None,
        }
    }

    /// Whether the machine is well-formed.
    pub open spec fn wf(self) -> bool {
        self.host.wf()
    }

    /// Whether the instruction pointer is at a breakpoint.
    pub open spec fn at_breakpoint(self) -> bool {
        exists|i: int| 0 <= i < self.breakpoints.len() && #[trigger] self.breakpoints[i] == self.host.ip
    }

    /// This state with the instruction pointer recorded as the breakpoint
    /// that was hit.
    pub open spec fn marked(self) -> ServerState {
        ServerState { hit_breakpoint: self.host.ip as usize, ..self }
    }

    /// This state with no execution under way.
    pub open spec fn idle(self) -> ServerState {
        ServerState { pending: Pending::Nothing, ..self }
    }

    /// This state after one step of the machine, and what the step did. A
    /// trap is recorded.
    pub open spec fn stepped(self) -> (ServerState, StepEvent) {
        let (host, event) = self.host.step();
        (
            ServerState {
                host,
                trap: match event {
                    StepEvent::Trapped(trap) => Some(trap),
                    _ => self.trap,
                },
                ..self
            },
            event,
        )
    }

    /// This state as an execution begins: nothing hit, nothing trapped.
    pub open spec fn begun(self, pending: Pending) -> ServerState {
        ServerState { pending, hit_breakpoint: 0, trap: None, ..self }
    }

    /// Free running: before each instruction the breakpoints are looked at,
    /// and execution stops, with the breakpoint recorded, where the
    /// instruction pointer is at one. It also stops where the machine should
    /// not run. It pauses where the machine waits for input and where
    /// `budget` instructions have been tried.
    pub open spec fn advance(self, budget: nat) -> (ServerState, Pause)
        decreases budget,
    {
        if self.at_breakpoint() {
            (self.marked(), Pause::Stopped)
        } else if !self.host.should_run() {
            (self, Pause::Stopped)
        } else if budget == 0 {
            (self, Pause::Exhausted)
        } else {
            let (next, event) = self.stepped();
            if event is AwaitingInput {
                (next, Pause::AwaitingInput)
            } else {
                next.advance((budget - 1) as nat)
            }
        }
    }

    /// The frame that ends an execution: a snapshot; for `Continue`, a frame
    /// of several answers, which are the line that tells of the breakpoint,
    /// if one other than 0 was hit, and the snapshot.
    pub open spec fn report(self) -> Seq<MessageView> {
        let state = ResponseView::State(self.host.snapshot());
        match self.pending {
            Pending::Continue => seq![
                MessageView::Responses(
                    if self.hit_breakpoint != 0 {
                        seq![ResponseView::Text(hit_text(self.hit_breakpoint)), state]
                    } else {
                        seq![state]
                    },
                ),
            ],
            _ => seq![MessageView::Response(state)],
        }
    }

    /// The execution under way has come to its end: its report is sent and
    /// the server is ready.
    pub open spec fn finish(self) -> (ServerState, ReplyView) {
        (self.idle(), ReplyView { frames: self.report(), next: Next::Ready })
    }

    /// Goes on with the execution under way, for at most `budget`
    /// instructions.
    pub open spec fn resume(self, budget: nat) -> (ServerState, ReplyView) {
        match self.pending {
            Pending::Nothing => (self, silent(Next::Ready)),
            Pending::Step => {
                let (next, event) = self.stepped();
                if event is AwaitingInput {
                    (self, silent(Next::Input))
                } else {
                    next.finish()
                }
            },
            _ => {
                let (state, pause) = self.advance(budget);
                match pause {
                    Pause::Stopped => state.finish(),
                    Pause::Exhausted => (state, silent(Next::Resume)),
                    Pause::AwaitingInput => (state, silent(Next::Input)),
                }
            },
        }
    }

    /// What a command does.
    ///
    /// `Run` and `Continue` are acknowledged with a line of text and begin an
    /// execution, of which no instruction is executed yet; `Step` executes
    /// one instruction, or waits for its input. The other commands are done
    /// at once. Whatever execution was under way is given up.
    pub open spec fn handle(self, cmd: Command) -> (ServerState, ReplyView) {
        match cmd {
            Command::Nothing => (self.idle(), silent(Next::Ready)),
            Command::Quit => (self.idle(), silent(Next::Quit)),
            Command::Run => (
                self.begun(Pending::Run),
                ReplyView { frames: seq![text_frame("Running program..."@)], next: Next::Resume },
            ),
            Command::Continue => (
                self.begun(Pending::Continue),
                ReplyView { frames: seq![text_frame("Continuing execution"@)], next: Next::Resume },
            ),
            Command::Step => ServerState { pending: Pending::Step, trap: None, ..self }.resume(1),
            Command::AddBreakpoint(address) => (
                ServerState { breakpoints: self.breakpoints.push(address), ..self.idle() },
                say(added_text(self.breakpoints.len() + 1, address)),
            ),
            Command::RemoveBreakpoint(address) => if self.breakpoints.contains(address) {
                (
                    ServerState {
                        breakpoints: without_first(self.breakpoints, address),
                        ..self.idle()
                    },
                    say(removed_text(address)),
                )
            } else {
                (self.idle(), say(absent_text(address)))
            },
            Command::PrintRegister(_) => (
                self.idle(),
                ReplyView {
                    frames: seq![
                        MessageView::Response(ResponseView::State(self.host.snapshot())),
                    ],
                    next: Next::Ready,
                },
            ),
            Command::PrintMemory(address, len) => (
                self.idle(),
                ReplyView {
                    frames: seq![
                        MessageView::Response(
                            ResponseView::Dump(
                                address,
                                self.host.dump(address as nat, (address + len) as nat),
                            ),
                        ),
                    ],
                    next: Next::Ready,
                },
            ),
        }
    }
}

/// Free running leaves the breakpoints as they are. Where it stops, the
/// instruction pointer is at a breakpoint, which is then recorded as hit, or
/// the machine should not run. Where it pauses, the instruction pointer is at
/// no breakpoint and the machine should run.
pub proof fn lemma_advance_stops(s: ServerState, budget: nat)
    requires
        s.wf(),
    ensures
        s.advance(budget).0.wf(),
        s.advance(budget).0.breakpoints == s.breakpoints,
        s.advance(budget).0.pending == s.pending,
        s.advance(budget).1 is Stopped ==> {
            let t = s.advance(budget).0;
            ||| t.at_breakpoint() && t.hit_breakpoint == t.host.ip
            ||| !t.host.should_run() && t.hit_breakpoint == s.hit_breakpoint
        },
        !(s.advance(budget).1 is Stopped) ==> {
            let t = s.advance(budget).0;
            &&& !t.at_breakpoint()
            &&& t.host.should_run()
            &&& t.hit_breakpoint == s.hit_breakpoint
        },
    decreases budget,
{
    if !s.at_breakpoint() && s.host.should_run() && budget > 0 {
        crate::host::lemma_step_keeps_words(s.host);
        let (next, event) = s.stepped();
        if !(event is AwaitingInput) {
            lemma_advance_stops(next, (budget - 1) as nat);
        }
    } else if s.at_breakpoint() {
        let t = s.marked();
        assert(t.breakpoints == s.breakpoints);
        let i = choose|i: int| 0 <= i < s.breakpoints.len() && #[trigger] s.breakpoints[i] == s.host.ip;
        assert(t.breakpoints[i] == t.host.ip);
    }
}

/// Going on with an execution sends nothing until the execution ends, and
/// then one frame, after which the server is ready.
pub proof fn lemma_frames_of_resume(s: ServerState, budget: nat)
    requires
        s.pending != Pending::Nothing,
    ensures
        s.resume(budget).1.next != Next::Quit,
        s.resume(budget).1.next == Next::Ready ==> s.resume(budget).1.frames.len() == 1
            && s.resume(budget).0.pending == Pending::Nothing,
        s.resume(budget).1.next != Next::Ready ==> s.resume(budget).1.frames.len() == 0
            && s.resume(budget).0.pending == s.pending,
{
    if s.pending != Pending::Step {
        lemma_advance_keeps_pending(s, budget);
    }
}

/// Free running leaves the execution under way what it is.
pub proof fn lemma_advance_keeps_pending(s: ServerState, budget: nat)
    ensures
        s.advance(budget).0.pending == s.pending,
    decreases budget,
{
    if !s.at_breakpoint() && s.host.should_run() && budget > 0 {
        let (next, event) = s.stepped();
        if !(event is AwaitingInput) {
            lemma_advance_keeps_pending(next, (budget - 1) as nat);
        }
    }
}

/// The server sends as many frames for a command as the client reads after
/// sending it: all of them at once where the command is done at once, all
/// but the last where it begins an execution, whose end sends the last.
pub proof fn lemma_frames_of_handle(s: ServerState, cmd: Command)
    ensures
        ({
            let (t, reply) = s.handle(cmd);
            if reply.next == Next::Ready || reply.next == Next::Quit {
                reply.frames.len() == cmd.spec_response_frames() && t.pending == Pending::Nothing
            } else {
                reply.frames.len() + 1 == cmd.spec_response_frames() && t.pending
                    != Pending::Nothing
            }
        }),
{
    if cmd == Command::Step {
        lemma_frames_of_resume(ServerState { pending: Pending::Step, trap: None, ..s }, 1);
    }
}

/// Taking out the first `v` of a sequence is taking out the element at the
/// first index that holds `v`.
pub proof fn lemma_without_first(s: Seq<usize>, v: usize, i: int)
    requires
        0 <= i < s.len(),
        s[i] == v,
        forall|j: int| 0 <= j < i ==> s[j] != v,
    ensures
        without_first(s, v) == s.remove(i),
    decreases i,
{
    if i == 0 {
        assert(s.skip(1) =~= s.remove(0));
    } else {
        lemma_without_first(s.skip(1), v, i - 1);
        assert(seq![s[0]] + s.skip(1).remove(i - 1) =~= s.remove(i));
    }
}

/// A debug session: the machine, the breakpoints, the breakpoint that
/// execution last stopped at (0 when none), the execution under way, and the
/// trap that the last execution ran into, if it did.
pub struct Debugserver {
    host: Host,
    breakpoints: Vec<usize>,
    hit_breakpoint: usize,
    pending: Pending,
    trap: Option<Trap>,
}

impl View for Debugserver {
    type V = ServerState;

    closed spec fn view(&self) -> ServerState {
        ServerState {
            host: self.host@,
            breakpoints: self.breakpoints@,
            hit_breakpoint: self.hit_breakpoint,
            pending: self.pending,
            trap: self.trap,
        }
    }
}

/// The frame that carries `text`.
fn text_message(text: String) -> (m: Message)
    ensures
        m@ == text_frame(text@),
{
    Message::Response(ResponseData::Text(text))
}

/// A reply of the one frame `m`, after which the server does `next`.
fn reply_with(m: Message, next: Next) -> (reply: Reply)
    ensures
        reply@ == (ReplyView { frames: seq![m@], next }),
{
    let mut frames: Vec<Message> = Vec::new();
    frames.push(m);
    let reply = Reply { frames, next };
    assert(reply@.frames =~= seq![m@]);
    reply
}

/// A reply without frames.
fn reply_silent(next: Next) -> (reply: Reply)
    ensures
        reply@ == silent(next),
{
    let reply = Reply { frames: Vec::new(), next };
    assert(reply@.frames =~= Seq::empty());
    reply
}

impl Debugserver {
    /// Whether the machine of the session is well-formed.
    pub open spec fn wf(&self) -> bool {
        self@.wf()
    }

    /// The path of the program that runs in the session.
    pub closed spec fn path(&self) -> Seq<char> {
        self.host.spec_program().path@
    }

    /// A session for `program`: the machine loaded with it, no breakpoints.
    pub fn start(program: Program) -> (server: Debugserver)
        ensures
            server.wf(),
            server@ == ServerState::initial(program.data@),
            server.path() == program.path@,
    {
        Debugserver {
            host: Host::from(program),
            breakpoints: Vec::new(),
            hit_breakpoint: 0,
            pending: Pending::Nothing,
            trap: None,
        }
    }

    /// The address of the next instruction.
    pub fn ip(&self) -> (ip: usize)
        ensures
            ip == self@.host.ip,
    {
        self.host.ip()
    }

    /// The trap that the last execution ran into, if it did.
    pub fn trap(&self) -> (trap: Option<Trap>)
        ensures
            trap == self@.trap,
    {
        self.trap
    }

    /// Steps the machine once and records a trap.
    fn step(&mut self) -> (event: StepEvent)
        requires
            old(self).wf(),
        ensures
            final(self).wf(),
            final(self).path() == old(self).path(),
            (final(self)@, event) == old(self)@.stepped(),
    {
        let event = self.host.step();
        if let StepEvent::Trapped(trap) = event {
            self.trap = Some(trap);
        }
        event
    }

    /// What the server sends, unframed, when a client connects.
    pub fn greeting(&self) -> (text: String)
        ensures
            text@ == "Running "@ + self.path(),
    {
        let mut greeting = String::from_str("Running ");
        greeting.append(self.host.program().path.as_str());
        greeting
    }

    /// Queues a line of input for the machine.
    pub fn feed_input(&mut self, line: &str)
        requires
            old(self).wf(),
        ensures
            final(self).wf(),
            final(self).path() == old(self).path(),
            final(self)@ == (ServerState {
                host: HostState {
                    input: old(self)@.host.input + line@.map_values(
                        |c: char| crate::host::char_word(c),
                    ),
                    ..old(self)@.host
                },
                ..old(self)@
            }),
    {
        self.host.feed_input(line);
    }

    /// Hands over what the machine has written since the last call.
    pub fn take_output(&mut self) -> (bytes: Vec<u8>)
        ensures
            bytes@ == old(self)@.host.output,
            final(self).path() == old(self).path(),
            final(self)@ == (ServerState {
                host: HostState { output: Seq::empty(), ..old(self)@.host },
                ..old(self)@
            }),
    {
        self.host.take_output()
    }

    /// Does what a command asks and says what to send back: see
    /// [`ServerState::handle`].
    pub fn handle_cmd(&mut self, cmd: Command) -> (reply: Reply)
        requires
            old(self).wf(),
        ensures
            final(self).wf(),
            final(self).path() == old(self).path(),
            (final(self)@, reply@) == old(self)@.handle(cmd),
    {
        self.pending = Pending::Nothing;
        match cmd {
            Command::Nothing => reply_silent(Next::Ready),
            Command::Quit => self.handle_quit(),
            Command::Run => self.handle_run(),
            Command::Step => self.handle_step(),
            Command::Continue => self.handle_continue(),
            Command::AddBreakpoint(address) => self.handle_add_breakpoint(address),
            Command::RemoveBreakpoint(address) => self.handle_remove_breakpoint(address),
            Command::PrintRegister(_) => self.handle_print_register(),
            Command::PrintMemory(address, len) => self.handle_print_memory(address, len),
        }
    }

    /// Goes on with the execution under way for at most `budget`
    /// instructions: see [`ServerState::resume`].
    pub fn resume(&mut self, budget: usize) -> (reply: Reply)
        requires
            old(self).wf(),
        ensures
            final(self).wf(),
            final(self).path() == old(self).path(),
            (final(self)@, reply@) == old(self)@.resume(budget as nat),
    {
        match self.pending {
            Pending::Nothing => reply_silent(Next::Ready),
            Pending::Step => {
                let event = self.step();
                if let StepEvent::AwaitingInput = event {
                    reply_silent(Next::Input)
                } else {
                    self.finish()
                }
            },
            _ => {
                match self.run(budget) {
                    Pause::Stopped => self.finish(),
                    Pause::Exhausted => reply_silent(Next::Resume),
                    Pause::AwaitingInput => reply_silent(Next::Input),
                }
            },
        }
    }

    /// Ends the execution under way with its report.
    fn finish(&mut self) -> (reply: Reply)
        requires
            old(self).wf(),
        ensures
            final(self).wf(),
            final(self).path() == old(self).path(),
            (final(self)@, reply@) == old(self)@.finish(),
    {
        let state = ResponseData::State(self.host.create_state());
        let frame = match self.pending {
            Pending::Continue => {
                let ghost shown = state@;
                let mut responses: Vec<ResponseData> = Vec::new();
                if self.hit_breakpoint != 0 {
                    let mut text = String::from_str("Hit breakpoint at ");
                    push_decimal(&mut text, self.hit_breakpoint as u64);
                    responses.push(ResponseData::Text(text));
                    responses.push(state);
                    assert(crate::messages::responses(responses@) =~= seq![
                        ResponseView::Text(hit_text(self.hit_breakpoint)),
                        shown,
                    ]);
                } else {
                    responses.push(state);
                    assert(crate::messages::responses(responses@) =~= seq![shown]);
                }
                Message::Responses(responses)
            },
            _ => Message::Response(state),
        };
        self.pending = Pending::Nothing;
        reply_with(frame, Next::Ready)
    }

    /// `Quit`: the session ends.
    fn handle_quit(&mut self) -> (reply: Reply)
        ensures
            *final(self) == *old(self),
            reply@ == silent(Next::Quit),
    {
        reply_silent(Next::Quit)
    }

    /// `Run`: acknowledged; the machine is to run.
    fn handle_run(&mut self) -> (reply: Reply)
        ensures
            final(self).path() == old(self).path(),
            final(self)@ == old(self)@.begun(Pending::Run),
            reply@ == (ReplyView {
                frames: seq![text_frame("Running program..."@)],
                next: Next::Resume,
            }),
    {
        self.hit_breakpoint = 0;
        self.trap = None;
        self.pending = Pending::Run;
        reply_with(text_message(String::from_str("Running program...")), Next::Resume)
    }

    /// `Continue`: acknowledged; the machine is to run.
    fn handle_continue(&mut self) -> (reply: Reply)
        ensures
            final(self).path() == old(self).path(),
            final(self)@ == old(self)@.begun(Pending::Continue),
            reply@ == (ReplyView {
                frames: seq![text_frame("Continuing execution"@)],
                next: Next::Resume,
            }),
    {
        self.hit_breakpoint = 0;
        self.trap = None;
        self.pending = Pending::Continue;
        reply_with(text_message(String::from_str("Continuing execution")), Next::Resume)
    }

    /// `Step`: one instruction, then a snapshot.
    fn handle_step(&mut self) -> (reply: Reply)
        requires
            old(self).wf(),
        ensures
            final(self).wf(),
            final(self).path() == old(self).path(),
            (final(self)@, reply@) == (ServerState {
                pending: Pending::Step,
                trap: None,
                ..old(self)@
            }).resume(1),
    {
        self.pending = Pending::Step;
        self.trap = None;
        self.resume(1)
    }

    /// `AddBreakpoint`: one more breakpoint, told with its number.
    fn handle_add_breakpoint(&mut self, address: usize) -> (reply: Reply)
        ensures
            final(self).path() == old(self).path(),
            final(self)@ == (ServerState {
                breakpoints: old(self)@.breakpoints.push(address),
                ..old(self)@
            }),
            reply@ == say(added_text(old(self)@.breakpoints.len() + 1, address)),
    {
        self.breakpoints.push(address);
        let bp_id: usize = self.breakpoints.len();
        let mut text = String::from_str("Breakpint ");
        push_decimal(&mut text, bp_id as u64);
        text.append(" added at ");
        push_decimal(&mut text, address as u64);
        reply_with(text_message(text), Next::Ready)
    }

    /// `RemoveBreakpoint`: the first breakpoint at `address` goes, if there is
    /// one.
    fn handle_remove_breakpoint(&mut self, address: usize) -> (reply: Reply)
        ensures
            final(self).path() == old(self).path(),
            old(self)@.breakpoints.contains(address) ==> final(self)@ == (ServerState {
                breakpoints: without_first(old(self)@.breakpoints, address),
                ..old(self)@
            }) && reply@ == say(removed_text(address)),
            !old(self)@.breakpoints.contains(address) ==> final(self)@ == old(self)@ && reply@
                == say(absent_text(address)),
    {
        let mut i: usize = 0;
        while i < self.breakpoints.len()
            invariant
                *self == *old(self),
                i <= self.breakpoints@.len(),
                forall|j: int| 0 <= j < i ==> self.breakpoints@[j] != address,
            decreases self.breakpoints@.len() - i,
        {
            if self.breakpoints[i] == address {
                proof {
                    lemma_without_first(self.breakpoints@, address, i as int);
                }
                self.breakpoints.remove(i);
                let mut text = String::from_str("Breakpint at ");
                push_decimal(&mut text, address as u64);
                text.append(" removed");
                return reply_with(text_message(text), Next::Ready);
            }
            i += 1;
        }
        let mut text = String::from_str("No breakpint at ");
        push_decimal(&mut text, address as u64);
        reply_with(text_message(text), Next::Ready)
    }

    /// `PrintRegister`: a snapshot.
    fn handle_print_register(&mut self) -> (reply: Reply)
        ensures
            *final(self) == *old(self),
            reply@ == (ReplyView {
                frames: seq![
                    MessageView::Response(ResponseView::State(old(self)@.host.snapshot())),
                ],
                next: Next::Ready,
            }),
    {
        let state = self.host.create_state();
        reply_with(Message::Response(ResponseData::State(state)), Next::Ready)
    }

    /// `PrintMemory`: `len` words of memory from `address` on.
    fn handle_print_memory(&mut self, address: usize, len: usize) -> (reply: Reply)
        requires
            old(self).wf(),
        ensures
            *final(self) == *old(self),
            reply@ == (ReplyView {
                frames: seq![
                    MessageView::Response(
                        ResponseView::Dump(
                            address,
                            old(self)@.host.dump(address as nat, (address + len) as nat),
                        ),
                    ),
                ],
                next: Next::Ready,
            }),
    {
        let end: usize = match address.checked_add(len) {
            Some(end) => end,
            None => usize::MAX,
        };
        let dump = self.host.create_memory_dump(address, end);
        assert(dump@ =~= self@.host.dump(address as nat, (address + len) as nat));
        reply_with(Message::Response(ResponseData::Dump(address, dump)), Next::Ready)
    }

    /// Whether the instruction pointer is at a breakpoint; if it is, the
    /// breakpoint is recorded as hit.
    fn breakpoint_hit(&mut self) -> (hit: bool)
        ensures
            hit == old(self)@.at_breakpoint(),
            final(self).path() == old(self).path(),
            final(self)@ == (if hit {
                old(self)@.marked()
            } else {
                old(self)@
            }),
    {
        let ip: usize = self.host.ip();
        let mut i: usize = 0;
        while i < self.breakpoints.len()
            invariant
                *self == *old(self),
                ip == self@.host.ip,
                i <= self.breakpoints@.len(),
                forall|j: int| 0 <= j < i ==> self.breakpoints@[j] != ip,
            decreases self.breakpoints@.len() - i,
        {
            let bp: usize = self.breakpoints[i];
            if bp == ip {
                self.hit_breakpoint = bp;
                return true;
            }
            i += 1;
        }
        false
    }

    /// Runs the machine until it stops, meets a breakpoint, waits for input
    /// or has been stepped `budget` times.
    fn run(&mut self, budget: usize) -> (pause: Pause)
        requires
            old(self).wf(),
        ensures
            final(self).wf(),
            final(self).path() == old(self).path(),
            (final(self)@, pause) == old(self)@.advance(budget as nat),
    {
        let mut left: usize = budget;
        loop
            invariant
                self.wf(),
                self.path() == old(self).path(),
                self@.advance(left as nat) == old(self)@.advance(budget as nat),
            decreases left,
        {
            if self.breakpoint_hit() {
                return Pause::Stopped;
            }
            if !self.host.should_run() {
                return Pause::Stopped;
            }
            if left == 0 {
                return Pause::Exhausted;
            }
            let event = self.step();
            if let StepEvent::AwaitingInput = event {
                return Pause::AwaitingInput;
            }
            left -= 1;
        }
    }
}

} // verus!
