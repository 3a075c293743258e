//! What the debug server and its client say to each other, and how the client
//! shows it.

use vstd::prelude::*;
use vstd::string::*;
use crate::command::Command;
use crate::decompile::{listing, listing_text, parse_data, serialize};
use crate::text::{decimal, push_decimal};

verus! {

/// A snapshot of the machine: the registers, the instruction pointer, the
/// number of instructions executed, and the 20 words at the instruction
/// pointer.
#[derive(Debug, Clone, Copy, PartialEq, Eq)]
pub struct VmState {
    pub registers: [u16; 8],
    pub ip: usize,
    pub count: u32,
    pub here: [u16; 20],
}

/// A snapshot, as mathematics.
pub struct StateView {
    pub registers: Seq<u16>,
    pub ip: usize,
    pub count: u32,
    pub here: Seq<u16>,
}

impl View for VmState {
    type V = StateView;

    open spec fn view(&self) -> StateView {
        StateView {
            registers: self.registers@,
            ip: self.ip,
            count: self.count,
            here: self.here@,
        }
    }
}

/// What the server answers.
#[derive(Debug, PartialEq, Eq)]
pub enum ResponseData {
    /// Nothing.
    Empty,
    /// A line for the user.
    Text(String),
    /// A snapshot of the machine.
    State(VmState),
    /// Words of memory, and the address of the first.
    Dump(usize, Vec<u16>),
}

/// An answer of the server, as mathematics.
pub enum ResponseView {
    Empty,
    Text(Seq<char>),
    State(StateView),
    Dump(usize, Seq<u16>),
}

impl View for ResponseData {
    type V = ResponseView;

    open spec fn view(&self) -> ResponseView {
        match self {
            ResponseData::Empty => ResponseView::Empty,
            ResponseData::Text(content) => ResponseView::Text(content@),
            ResponseData::State(state) => ResponseView::State(state@),
            ResponseData::Dump(address, data) => ResponseView::Dump(*address, data@),
        }
    }
}

/// One frame on the wire.
#[derive(Debug, PartialEq, Eq)]
pub enum Message {
    /// From the client: a command.
    Request(Command),
    /// From the server: one answer.
    Response(ResponseData),
    /// From the server: several answers in one frame.
    Responses(Vec<ResponseData>),
}

/// A frame, as mathematics.
pub enum MessageView {
    Request(Command),
    Response(ResponseView),
    Responses(Seq<ResponseView>),
}

/// The answers that a vector of answers stands for.
pub open spec fn responses(data: Seq<ResponseData>) -> Seq<ResponseView> {
    data.map_values(|d: ResponseData| d@)
}

/// The frames that a vector of messages stands for.
pub open spec fn messages(frames: Seq<Message>) -> Seq<MessageView> {
    frames.map_values(|m: Message| m@)
}

impl View for Message {
    type V = MessageView;

    open spec fn view(&self) -> MessageView {
        match self {
            Message::Request(cmd) => MessageView::Request(*cmd),
            Message::Response(data) => MessageView::Response(data@),
            Message::Responses(data) => MessageView::Responses(responses(data@)),
        }
    }
}

/// `words`, cut or filled with zeros to `len` words.
pub open spec fn padded(words: Seq<u16>, len: nat) -> Seq<u16> {
    Seq::new(
        len,
        |i: int|
            if i < words.len() {
                words[i]
            } else {
                0u16
            },
    )
}

/// The registers as the client shows them: `r0:` and the value of register
/// 0, and so on, with a comma and a space between one and the next.
pub open spec fn registers_text(registers: Seq<u16>) -> Seq<char>
    decreases registers.len(),
{
    if registers.len() == 0 {
        Seq::empty()
    } else {
        registers_text(registers.drop_last()) + (if registers.len() > 1 {
            ", "@
        } else {
            Seq::empty()
        }) + "r"@ + decimal((registers.len() - 1) as nat) + ":"@ + decimal(registers.last() as nat)
    }
}

/// Words in decimal with a comma and a space between one and the next.
pub open spec fn words_joined(words: Seq<u16>) -> Seq<char>
    decreases words.len(),
{
    if words.len() == 0 {
        Seq::empty()
    } else {
        words_joined(words.drop_last()) + (if words.len() > 1 {
            ", "@
        } else {
            Seq::empty()
        }) + decimal(words.last() as nat)
    }
}

/// A memory dump as the client shows it: the address on one line, the words
/// in square brackets on the next.
pub open spec fn dump_text(address: usize, words: Seq<u16>) -> Seq<char> {
    "Memory from "@ + decimal(address as nat) + "\n["@ + words_joined(words) + "]"@
}

impl StateView {
    /// A snapshot as the client shows it: instruction pointer, a slash, the
    /// counter, the registers, and from the next line on the listing of the
    /// words at the instruction pointer.
    pub open spec fn text(self) -> Seq<char> {
        decimal(self.ip as nat) + "/"@ + decimal(self.count as nat) + ", regs "@ + registers_text(
            self.registers,
        ) + "\n"@ + listing_text(listing(self.here, 0, 0))
    }
}

impl ResponseView {
    /// An answer as the client shows it.
    pub open spec fn text(self) -> Seq<char> {
        match self {
            ResponseView::Empty => Seq::empty(),
            ResponseView::Text(content) => content,
            ResponseView::State(state) => state.text(),
            ResponseView::Dump(address, words) => dump_text(address, words),
        }
    }
}

impl VmState {
    /// A snapshot whose window holds the first 20 words of `here`, followed
    /// by zeros where `here` has fewer.
    pub fn from(registers: [u16; 8], ip: usize, count: u32, here: &[u16]) -> (st: VmState)
        ensures
            st@ == (StateView { registers: registers@, ip, count, here: padded(here@, 20) }),
    {
        let mut buff: [u16; 20] = [0u16; 20];
        let mut idx: usize = 0;
        while idx < here.len() && idx < 20
            invariant
                idx <= here@.len(),
                idx <= 20,
                forall|i: int| 0 <= i < idx ==> buff@[i] == here@[i],
                forall|i: int| idx <= i < 20 ==> buff@[i] == 0,
            decreases 20 - idx,
        {
            buff[idx] = here[idx];
            idx += 1;
        }
        assert(buff@ =~= padded(here@, 20));
        VmState { registers, ip, count, here: buff }
    }

    /// The snapshot as text for the user.
    pub fn to_string(&self) -> (text: String)
        ensures
            text@ == self@.text(),
    {
        let mut text = String::new();
        push_decimal(&mut text, self.ip as u64);
        text.append("/");
        push_decimal(&mut text, self.count as u64);
        text.append(", regs ");
        let ghost head = text@;
        let mut i: usize = 0;
        while i < 8
            invariant
                i <= 8,
                self.registers@.len() == 8,
                text@ == head + registers_text(self.registers@.take(i as int)),
            decreases 8 - i,
        {
            proof {
                assert(self.registers@.take(i + 1).drop_last() =~= self.registers@.take(i as int));
            }
            if i > 0 {
                text.append(", ");
            }
            text.append("r");
            push_decimal(&mut text, i as u64);
            text.append(":");
            push_decimal(&mut text, self.registers[i] as u64);
            i += 1;
            assert(text@ =~= head + registers_text(self.registers@.take(i as int)));
        }
        assert(self.registers@.take(8) =~= self.registers@);
        text.append("\n");
        let mut window: Vec<u16> = Vec::new();
        let mut k: usize = 0;
        while k < 20
            invariant
                k <= 20,
                self.here@.len() == 20,
                window@ == self.here@.take(k as int),
            decreases 20 - k,
        {
            window.push(self.here[k]);
            k += 1;
            assert(window@ =~= self.here@.take(k as int));
        }
        assert(window@ =~= self.here@);
        let opdata = parse_data(window);
        let optext = serialize(opdata);
        text.append(optext.as_str());
        assert(text@ =~= self@.text());
        text
    }
}

impl Message {
    /// The command that a frame from the client carries, if it carries one.
    pub fn into_request(self) -> (r: Option<Command>)
        ensures
            r == match self@ {
                MessageView::Request(cmd) => Some(cmd),
                _ => None,
            },
    {
        match self {
            Message::Request(cmd) => Some(cmd),
            _ => None,
        }
    }

    /// The answers that a frame from the server carries, in order, if it
    /// carries any: the one answer of a `Response`, the answers of a
    /// `Responses`.
    pub fn into_responses(self) -> (r: Option<Vec<ResponseData>>)
        ensures
            match self@ {
                MessageView::Request(_) => r is None,
                MessageView::Response(data) => r matches Some(v) && responses(v@) == seq![data],
                MessageView::Responses(data) => r matches Some(v) && responses(v@) == data,
            },
    {
        match self {
            Message::Request(_) => None,
            Message::Response(data) => {
                let mut v: Vec<ResponseData> = Vec::new();
                let ghost shown = data@;
                v.push(data);
                assert(responses(v@) =~= seq![shown]);
                Some(v)
            },
            Message::Responses(datas) => Some(datas),
        }
    }
}

/// A memory dump as text for the user.
pub fn print_dump(address: usize, data: &Vec<u16>) -> (text: String)
    ensures
        text@ == dump_text(address, data@),
{
    let mut text = String::from_str("Memory from ");
    push_decimal(&mut text, address as u64);
    text.append("\n[");
    let ghost head = text@;
    let mut i: usize = 0;
    while i < data.len()
        invariant
            i <= data@.len(),
            text@ == head + words_joined(data@.take(i as int)),
        decreases data@.len() - i,
    {
        proof {
            assert(data@.take(i + 1).drop_last() =~= data@.take(i as int));
        }
        if i > 0 {
            text.append(", ");
        }
        push_decimal(&mut text, data[i] as u64);
        i += 1;
        assert(text@ =~= head + words_joined(data@.take(i as int)));
    }
    assert(data@.take(i as int) =~= data@);
    text.append("]");
    assert(text@ =~= dump_text(address, data@));
    text
}

impl ResponseData {
    /// The answer as text for the user: nothing for `Empty`, the line of a
    /// `Text`, a snapshot or a dump as the client shows them.
    pub fn to_string(&self) -> (text: String)
        ensures
            text@ == self@.text(),
    {
        match self {
            ResponseData::Empty => String::new(),
            ResponseData::Text(content) => content.clone(),
            ResponseData::State(state) => state.to_string(),
            ResponseData::Dump(address, data) => print_dump(*address, data),
        }
    }
}

} // verus!
