use synacor_vm::command::Command;
use synacor_vm::debugserver::{Debugserver, Next, Reply};
use synacor_vm::messages::{Message, ResponseData, VmState};
use synacor_vm::program::Program;

fn session(words: &[u16]) -> Debugserver {
    Debugserver::start(Program {
        data: words.to_vec(),
        path: String::from("challenge.bin"),
    })
}

fn text(line: &str) -> Message {
    Message::Response(ResponseData::Text(String::from(line)))
}

fn state_of(message: &Message) -> VmState {
    match message {
        Message::Response(ResponseData::State(state)) => *state,
        other => panic!("no state: {:?}", other),
    }
}

/// Sends a command and goes on until the server is ready again; gives back
/// every frame that was to be sent, in order.
fn exchange(server: &mut Debugserver, cmd: Command) -> Vec<Message> {
    let mut frames = Vec::new();
    let mut reply: Reply = server.handle_cmd(cmd);
    loop {
        frames.append(&mut reply.frames);
        match reply.next {
            Next::Ready => return frames,
            Next::Resume => reply = server.resume(7),
            other => panic!("unexpected: {:?}", other),
        }
    }
}

const NOPS_TO_TEN: [u16; 12] = [2, 42, 21, 21, 21, 21, 21, 21, 21, 21, 21, 0];

#[test]
fn protocol_greeting_names_the_program() {
    let server = session(&[0]);
    assert_eq!(server.greeting(), "Running challenge.bin");
}

#[test]
fn protocol_step_answers_with_one_state() {
    let mut server = session(&NOPS_TO_TEN);
    let reply = server.handle_cmd(Command::Step);
    assert_eq!(reply.next, Next::Ready);
    assert_eq!(reply.frames.len(), 1);
    let state = state_of(&reply.frames[0]);
    assert_eq!(state.ip, 2);
    assert_eq!(state.count, 1);
    assert_eq!(state.registers, [0u16; 8]);
    assert_eq!(
        state.here,
        [21, 21, 21, 21, 21, 21, 21, 21, 21, 0, 0, 0, 0, 0, 0, 0, 0, 0, 0, 0]
    );
}

#[test]
fn protocol_add_breakpoint_answers_with_one_text() {
    let mut server = session(&NOPS_TO_TEN);
    let reply = server.handle_cmd(Command::AddBreakpoint(10));
    assert_eq!(reply.next, Next::Ready);
    assert_eq!(reply.frames, vec![text("Breakpint 1 added at 10")]);
    let reply = server.handle_cmd(Command::AddBreakpoint(4));
    assert_eq!(reply.frames, vec![text("Breakpint 2 added at 4")]);
}

#[test]
fn protocol_continue_stops_at_the_breakpoint() {
    let mut server = session(&NOPS_TO_TEN);
    exchange(&mut server, Command::Step);
    exchange(&mut server, Command::AddBreakpoint(10));
    let first = server.handle_cmd(Command::Continue);
    assert_eq!(first.next, Next::Resume);
    assert_eq!(first.frames, vec![text("Continuing execution")]);
    let mut frames = Vec::new();
    let mut reply = server.resume(3);
    while reply.next == Next::Resume {
        assert!(reply.frames.is_empty());
        reply = server.resume(3);
    }
    frames.append(&mut reply.frames);
    assert_eq!(reply.next, Next::Ready);
    assert_eq!(frames.len(), 1);
    match &frames[0] {
        Message::Responses(parts) => {
            assert_eq!(parts.len(), 2);
            assert_eq!(
                parts[0],
                ResponseData::Text(String::from("Hit breakpoint at 10"))
            );
            match &parts[1] {
                ResponseData::State(state) => {
                    assert_eq!(state.ip, 10);
                    assert_eq!(state.count, 9);
                }
                other => panic!("no state: {:?}", other),
            }
        }
        other => panic!("not several responses: {:?}", other),
    }
}

#[test]
fn protocol_quit_ends_the_session() {
    let mut server = session(&NOPS_TO_TEN);
    let reply = server.handle_cmd(Command::Quit);
    assert_eq!(reply.next, Next::Quit);
    assert!(reply.frames.is_empty());
}

#[test]
fn protocol_nothing_is_answered_with_nothing() {
    let mut server = session(&NOPS_TO_TEN);
    let reply = server.handle_cmd(Command::Nothing);
    assert_eq!(reply.next, Next::Ready);
    assert!(reply.frames.is_empty());
}

#[test]
fn loop_stops_at_breakpoint_3() {
    let mut server = session(&[1, 32768, 10, 9, 32768, 32768, 32769, 7, 32768, 3, 0]);
    exchange(&mut server, Command::AddBreakpoint(3));
    let frames = exchange(&mut server, Command::Continue);
    assert_eq!(frames.len(), 2);
    assert_eq!(frames[0], text("Continuing execution"));
    match &frames[1] {
        Message::Responses(parts) => {
            assert_eq!(
                parts[0],
                ResponseData::Text(String::from("Hit breakpoint at 3"))
            );
            match &parts[1] {
                ResponseData::State(state) => {
                    assert_eq!(state.ip, 3);
                    assert_eq!(state.count, 1);
                    assert_eq!(state.registers[0], 10);
                }
                other => panic!("no state: {:?}", other),
            }
        }
        other => panic!("not several responses: {:?}", other),
    }
}

#[test]
fn continue_at_a_breakpoint_stays_there() {
    let mut server = session(&[1, 32768, 10, 9, 32768, 32768, 32769, 7, 32768, 3, 0]);
    exchange(&mut server, Command::AddBreakpoint(3));
    exchange(&mut server, Command::Continue);
    let frames = exchange(&mut server, Command::Continue);
    match &frames[1] {
        Message::Responses(parts) => match &parts[1] {
            ResponseData::State(state) => {
                assert_eq!(state.ip, 3);
                assert_eq!(state.count, 1);
            }
            other => panic!("no state: {:?}", other),
        },
        other => panic!("not several responses: {:?}", other),
    }
    exchange(&mut server, Command::Step);
    let frames = exchange(&mut server, Command::Continue);
    match &frames[1] {
        Message::Responses(parts) => match &parts[1] {
            ResponseData::State(state) => {
                assert_eq!(state.ip, 3);
                assert_eq!(state.count, 3);
            }
            other => panic!("no state: {:?}", other),
        },
        other => panic!("not several responses: {:?}", other),
    }
}

#[test]
fn continue_without_breakpoint_runs_to_the_halt() {
    let mut server = session(&NOPS_TO_TEN);
    let frames = exchange(&mut server, Command::Continue);
    assert_eq!(frames.len(), 2);
    match &frames[1] {
        Message::Responses(parts) => {
            assert_eq!(parts.len(), 1);
            match &parts[0] {
                ResponseData::State(state) => {
                    assert_eq!(state.ip, 12);
                    assert_eq!(state.count, 11);
                }
                other => panic!("no state: {:?}", other),
            }
        }
        other => panic!("not several responses: {:?}", other),
    }
}

#[test]
fn breakpoint_at_address_0_is_not_told() {
    let mut server = session(&NOPS_TO_TEN);
    exchange(&mut server, Command::AddBreakpoint(0));
    let frames = exchange(&mut server, Command::Continue);
    match &frames[1] {
        Message::Responses(parts) => {
            assert_eq!(parts.len(), 1);
            match &parts[0] {
                ResponseData::State(state) => {
                    assert_eq!(state.ip, 0);
                    assert_eq!(state.count, 0);
                }
                other => panic!("no state: {:?}", other),
            }
        }
        other => panic!("not several responses: {:?}", other),
    }
}

#[test]
fn run_answers_with_text_and_state() {
    let mut server = session(&NOPS_TO_TEN);
    let frames = exchange(&mut server, Command::Run);
    assert_eq!(frames.len(), 2);
    assert_eq!(frames[0], text("Running program..."));
    let state = state_of(&frames[1]);
    assert_eq!(state.ip, 12);
    assert_eq!(state.count, 11);
}

#[test]
fn run_stops_at_a_breakpoint_without_telling() {
    let mut server = session(&NOPS_TO_TEN);
    exchange(&mut server, Command::AddBreakpoint(5));
    let frames = exchange(&mut server, Command::Run);
    assert_eq!(frames.len(), 2);
    let state = state_of(&frames[1]);
    assert_eq!(state.ip, 5);
    assert_eq!(state.count, 4);
}

#[test]
fn remove_breakpoint_takes_out_the_address() {
    let mut server = session(&NOPS_TO_TEN);
    exchange(&mut server, Command::AddBreakpoint(5));
    exchange(&mut server, Command::AddBreakpoint(7));
    assert_eq!(
        exchange(&mut server, Command::RemoveBreakpoint(5)),
        vec![text("Breakpint at 5 removed")]
    );
    assert_eq!(
        exchange(&mut server, Command::RemoveBreakpoint(5)),
        vec![text("No breakpint at 5")]
    );
    assert_eq!(
        exchange(&mut server, Command::RemoveBreakpoint(1)),
        vec![text("No breakpint at 1")]
    );
    let frames = exchange(&mut server, Command::Run);
    assert_eq!(state_of(&frames[1]).ip, 7);
    assert_eq!(
        exchange(&mut server, Command::AddBreakpoint(9)),
        vec![text("Breakpint 2 added at 9")]
    );
}

#[test]
fn remove_breakpoint_takes_out_one_of_two_equal() {
    let mut server = session(&NOPS_TO_TEN);
    exchange(&mut server, Command::AddBreakpoint(5));
    exchange(&mut server, Command::AddBreakpoint(5));
    exchange(&mut server, Command::RemoveBreakpoint(5));
    let frames = exchange(&mut server, Command::Run);
    assert_eq!(state_of(&frames[1]).ip, 5);
    exchange(&mut server, Command::RemoveBreakpoint(5));
    let frames = exchange(&mut server, Command::Run);
    assert_eq!(state_of(&frames[1]).ip, 12);
}

#[test]
fn print_register_answers_with_the_state() {
    let mut server = session(&[1, 32770, 9, 0]);
    exchange(&mut server, Command::Step);
    let frames = exchange(&mut server, Command::PrintRegister(2));
    assert_eq!(frames.len(), 1);
    let state = state_of(&frames[0]);
    assert_eq!(state.registers, [0, 0, 9, 0, 0, 0, 0, 0]);
    assert_eq!(state.ip, 3);
    assert_eq!(state.count, 1);
}

#[test]
fn print_memory_answers_with_a_dump() {
    let mut server = session(&[10, 11, 12, 13, 14]);
    assert_eq!(
        exchange(&mut server, Command::PrintMemory(1, 2)),
        vec![Message::Response(ResponseData::Dump(1, vec![11, 12]))]
    );
    assert_eq!(
        exchange(&mut server, Command::PrintMemory(3, 100)),
        vec![Message::Response(ResponseData::Dump(3, vec![13, 14]))]
    );
    assert_eq!(
        exchange(&mut server, Command::PrintMemory(9, 1)),
        vec![Message::Response(ResponseData::Dump(9, vec![]))]
    );
    assert_eq!(
        exchange(&mut server, Command::PrintMemory(2, usize::MAX)),
        vec![Message::Response(ResponseData::Dump(2, vec![12, 13, 14]))]
    );
    assert_eq!(
        exchange(&mut server, Command::PrintMemory(0, 0)),
        vec![Message::Response(ResponseData::Dump(0, vec![]))]
    );
}

#[test]
fn step_waits_for_input() {
    let mut server = session(&[20, 32768, 19, 32768, 0]);
    let reply = server.handle_cmd(Command::Step);
    assert_eq!(reply.next, Next::Input);
    assert!(reply.frames.is_empty());
    server.feed_input("Q\n");
    let reply = server.resume(1);
    assert_eq!(reply.next, Next::Ready);
    let state = state_of(&reply.frames[0]);
    assert_eq!(state.registers[0], 81);
    assert_eq!(state.ip, 2);
    assert_eq!(state.count, 1);
}

#[test]
fn run_waits_for_input_and_collects_output() {
    let mut server = session(&[19, 62, 20, 32768, 19, 32768, 0]);
    let reply = server.handle_cmd(Command::Run);
    assert_eq!(reply.next, Next::Resume);
    let reply = server.resume(100);
    assert_eq!(reply.next, Next::Input);
    assert!(reply.frames.is_empty());
    assert_eq!(server.take_output(), vec![62]);
    server.feed_input("k\n");
    let reply = server.resume(100);
    assert_eq!(reply.next, Next::Ready);
    assert_eq!(server.take_output(), vec![107]);
    let state = state_of(&reply.frames[0]);
    assert_eq!(state.count, 4);
    assert_eq!(state.ip, 7);
}

#[test]
fn resume_with_nothing_under_way_does_nothing() {
    let mut server = session(&NOPS_TO_TEN);
    let reply = server.resume(100);
    assert_eq!(reply.next, Next::Ready);
    assert!(reply.frames.is_empty());
    let frames = exchange(&mut server, Command::PrintRegister(0));
    assert_eq!(state_of(&frames[0]).count, 0);
}

#[test]
fn a_trap_ends_the_run() {
    let mut server = session(&[21, 21, 2, 40000, 0]);
    let frames = exchange(&mut server, Command::Run);
    let state = state_of(&frames[1]);
    assert_eq!(state.ip, 2);
    assert_eq!(state.count, 2);
    let frames = exchange(&mut server, Command::Step);
    let state = state_of(&frames[0]);
    assert_eq!(state.ip, 2);
    assert_eq!(state.count, 2);
}

#[test]
fn server_sends_as_many_frames_as_the_client_reads() {
    let commands = [
        Command::Step,
        Command::AddBreakpoint(6),
        Command::Continue,
        Command::RemoveBreakpoint(6),
        Command::RemoveBreakpoint(6),
        Command::PrintRegister(0),
        Command::PrintMemory(0, 4),
        Command::Run,
        Command::Step,
        Command::Nothing,
    ];
    let mut server = session(&NOPS_TO_TEN);
    for cmd in commands {
        let frames = exchange(&mut server, cmd);
        assert_eq!(frames.len(), cmd.response_frames());
    }
    let reply = server.handle_cmd(Command::Quit);
    assert_eq!(reply.frames.len(), Command::Quit.response_frames());
}
