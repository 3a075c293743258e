use synacor_vm::command::Command;
use synacor_vm::messages::{print_dump, Message, ResponseData, VmState};

#[test]
fn vmstate_from_pads_the_window_with_zeros() {
    let state = VmState::from([1, 2, 3, 4, 5, 6, 7, 8], 9, 10, &[11, 12, 13]);
    assert_eq!(state.registers, [1, 2, 3, 4, 5, 6, 7, 8]);
    assert_eq!(state.ip, 9);
    assert_eq!(state.count, 10);
    assert_eq!(
        state.here,
        [11, 12, 13, 0, 0, 0, 0, 0, 0, 0, 0, 0, 0, 0, 0, 0, 0, 0, 0, 0]
    );
    let state = VmState::from([0; 8], 0, 0, &[]);
    assert_eq!(state.here, [0u16; 20]);
    let state = VmState::from([0; 8], 0, 0, &[5; 20]);
    assert_eq!(state.here, [5u16; 20]);
    let long: Vec<u16> = (100..130).collect();
    let state = VmState::from([0; 8], 0, 0, &long);
    assert_eq!(state.here[..], long[..20]);
}

#[test]
fn vmstate_text_shows_whatever_the_window_holds() {
    let state = VmState::from([0; 8], 7, 2, &[2, 40000, 65535, 19, 300]);
    assert!(state
        .to_string()
        .starts_with("7/2, regs r0:0, r1:0, r2:0, r3:0, r4:0, r5:0, r6:0, r7:0
0: push 40000
3: out ,
5: halt
"));
}

#[test]
fn vmstate_text_shows_registers_and_listing() {
    let state = VmState::from(
        [0, 10, 20, 0, 0, 0, 0, 32767],
        4,
        1,
        &[1, 32769, 10, 1, 32770, 20, 19, 65, 18],
    );
    assert_eq!(
        state.to_string(),
        "4/1, regs r0:0, r1:10, r2:20, r3:0, r4:0, r5:0, r6:0, r7:32767\n\
         0: set reg1 10\n\
         3: set reg2 20\n\
         6: out A\n\
         8: ret\n\
         9: halt\n\
         10: halt\n\
         11: halt\n\
         12: halt\n\
         13: halt\n\
         14: halt\n\
         15: halt\n\
         16: halt\n\
         17: halt\n\
         18: halt\n\
         19: halt\n"
    );
}

#[test]
fn vmstate_text_marks_an_instruction_cut_by_the_window() {
    let mut here = [21u16; 20];
    here[19] = 9;
    let state = VmState::from([0; 8], 0, 0, &here);
    let text = state.to_string();
    assert!(text.ends_with("18: nop\n19: add <arg0?>\n"));
}

#[test]
fn dump_text_shows_address_and_words() {
    assert_eq!(print_dump(5, &vec![1, 2, 300]), "Memory from 5\n[1, 2, 300]");
    assert_eq!(print_dump(0, &vec![]), "Memory from 0\n[]");
    assert_eq!(print_dump(32767, &vec![65535]), "Memory from 32767\n[65535]");
}

#[test]
fn response_text_is_what_the_client_shows() {
    assert_eq!(ResponseData::Empty.to_string(), "");
    assert_eq!(
        ResponseData::Text(String::from("Continuing execution")).to_string(),
        "Continuing execution"
    );
    assert_eq!(
        ResponseData::Dump(7, vec![8, 9]).to_string(),
        "Memory from 7\n[8, 9]"
    );
    let state = VmState::from([0; 8], 2, 3, &[]);
    assert_eq!(
        ResponseData::State(state).to_string(),
        state.to_string()
    );
    assert!(state
        .to_string()
        .starts_with("2/3, regs r0:0, r1:0, r2:0, r3:0, r4:0, r5:0, r6:0, r7:0\n0: halt\n"));
}

#[test]
fn message_carries_a_request_or_responses() {
    assert_eq!(
        Message::Request(Command::Step).into_request(),
        Some(Command::Step)
    );
    assert_eq!(Message::Request(Command::Step).into_responses(), None);
    assert_eq!(Message::Response(ResponseData::Empty).into_request(), None);
    assert_eq!(Message::Responses(vec![]).into_request(), None);
    assert_eq!(
        Message::Response(ResponseData::Text(String::from("a"))).into_responses(),
        Some(vec![ResponseData::Text(String::from("a"))])
    );
    assert_eq!(
        Message::Responses(vec![
            ResponseData::Text(String::from("a")),
            ResponseData::Dump(1, vec![2]),
        ])
        .into_responses(),
        Some(vec![
            ResponseData::Text(String::from("a")),
            ResponseData::Dump(1, vec![2]),
        ])
    );
    assert_eq!(Message::Responses(vec![]).into_responses(), Some(vec![]));
}
