use synacor_vm::client::{Client, Entry};
use synacor_vm::command::Command;

#[test]
fn client_sends_the_command_a_line_names() {
    let mut client = Client::new();
    assert_eq!(client.enter("step"), Entry::Send(Command::Step));
    assert_eq!(client.enter("b 12"), Entry::Send(Command::AddBreakpoint(12)));
    assert_eq!(client.enter("  pm 3 4 \n"), Entry::Send(Command::PrintMemory(3, 4)));
    assert_eq!(client.enter("q\n"), Entry::Send(Command::Quit));
}

#[test]
fn client_repeats_the_last_command_on_an_empty_line() {
    let mut client = Client::new();
    assert_eq!(client.enter("s\n"), Entry::Send(Command::Step));
    assert_eq!(client.enter("\n"), Entry::Send(Command::Step));
    assert_eq!(client.enter(""), Entry::Send(Command::Step));
    assert_eq!(client.enter("   "), Entry::Send(Command::Step));
    assert_eq!(client.enter("c\n"), Entry::Send(Command::Continue));
    assert_eq!(client.enter("\n"), Entry::Send(Command::Continue));
}

#[test]
fn client_rejects_a_line_that_names_no_command() {
    let mut client = Client::new();
    assert_eq!(
        client.enter("\n"),
        Entry::Reject(String::from("failed to parse command ''"))
    );
    assert_eq!(
        client.enter("jump 3\n"),
        Entry::Reject(String::from("failed to parse command 'jump 3'"))
    );
}

#[test]
fn client_forgets_a_rejected_line() {
    let mut client = Client::new();
    assert_eq!(client.enter("pr 3\n"), Entry::Send(Command::PrintRegister(3)));
    assert_eq!(
        client.enter("pr 30\n"),
        Entry::Reject(String::from("failed to parse command 'pr 30'"))
    );
    assert_eq!(client.enter("\n"), Entry::Send(Command::PrintRegister(3)));
}
