//! A virtual machine for the Synacor architecture, its disassembler and the
//! control plane of its debug server.
//!
//! The machine has a 15-bit word, eight registers, an operand stack and a
//! word-addressed memory that holds both code and data. Every executable
//! function in this crate carries a contract over a mathematical model of the
//! state it works on, and Verus proves the body against it.
//!
//! * [`opcodes`]: the instruction set.
//! * [`program`]: a program image and the bytes that encode it.
//! * [`host`]: the machine and the meaning of each instruction.
//! * [`decompile`]: the disassembler; [`encode`]: the proof that a listing
//!   holds the words it was made from.
//! * [`command`], [`messages`], [`frame`]: what goes over the debug wire.
//! * [`debugserver`]: what the server does with a command; [`client`]: what
//!   the debugger does with a line.
//! * [`packer`]: from a text of numbers to a program binary.
//! * [`text`]: decimal numbers and white space.
//!
//! Nothing here reads or writes anything. The machine keeps what it puts out
//! until it is collected and waits where it has no input; the server and the
//! client say what is to be sent and leave the sending to their caller.
//!
//! One function is believed and not proved: the one in [`text`] that appends
//! a character to a `String`.

pub mod text;
pub mod opcodes;
pub mod program;
pub mod messages;
pub mod host;
pub mod decompile;
pub mod encode;
pub mod command;
pub mod debugserver;
pub mod client;
pub mod packer;
pub mod frame;
