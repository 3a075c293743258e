//! The commands of the debugger, and how a line of text names one.

use vstd::prelude::*;
use vstd::string::*;
use crate::text::{
    all_digits, char_is_digit, decimal_value, has_prefix, is_digit, parse_decimal, to_chars,
};

verus! {

/// A request of the debugger's user to the debug server.
#[derive(Debug, Clone, Copy, PartialEq, Eq, Structural)]
pub enum Command {
    /// No command: what the server takes a closed connection for.
    Nothing,
    /// Run until the machine stops or reaches a breakpoint.
    Run,
    /// Execute one instruction.
    Step,
    /// Go on until the machine stops or reaches a breakpoint, and say which.
    Continue,
    /// End the session.
    Quit,
    /// Stop whenever the instruction pointer reaches this address.
    AddBreakpoint(usize),
    /// No longer stop at this address.
    RemoveBreakpoint(usize),
    /// Show the registers.
    PrintRegister(usize),
    /// Show this many words of memory from this address on.
    PrintMemory(usize, usize),
}

/// The number that `s` writes in decimal, if `s` is a non-empty run of digits
/// and the number fits the machine's address type.
pub open spec fn number_of(s: Seq<char>) -> Option<usize> {
    if s.len() > 0 && all_digits(s) && decimal_value(s) <= usize::MAX {
        Some(decimal_value(s) as usize)
    } else {
        None
    }
}

/// How many digits `s` begins with.
pub open spec fn leading_digits(s: Seq<char>) -> nat
    decreases s.len(),
{
    if s.len() > 0 && is_digit(s[0]) {
        1 + leading_digits(s.skip(1))
    } else {
        0
    }
}

/// The command that the argument of `b` names.
pub open spec fn breakpoint_to_add(s: Seq<char>) -> Option<Command> {
    match number_of(s) {
        Some(address) => Some(Command::AddBreakpoint(address)),
        None => None,
    }
}

/// The command that the argument of `del` names.
pub open spec fn breakpoint_to_remove(s: Seq<char>) -> Option<Command> {
    match number_of(s) {
        Some(address) => Some(Command::RemoveBreakpoint(address)),
        None => None,
    }
}

/// The command that the argument of `p reg` names: the number of one of the
/// eight registers.
pub open spec fn register_to_print(s: Seq<char>) -> Option<Command> {
    match number_of(s) {
        Some(register) => if register <= 7 {
            Some(Command::PrintRegister(register))
        } else {
            None
        },
        None => None,
    }
}

/// The command that the arguments of `p mem` name: an address, or an address,
/// one space and a length. Without a length one word is meant.
pub open spec fn memory_to_print(s: Seq<char>) -> Option<Command> {
    let n = leading_digits(s) as int;
    if n == s.len() {
        match number_of(s) {
            Some(address) => Some(Command::PrintMemory(address, 1)),
            None => None,
        }
    } else if s[n] == ' ' {
        match (number_of(s.take(n)), number_of(s.skip(n + 1))) {
            (Some(address), Some(len)) => Some(Command::PrintMemory(address, len)),
            _ => None,
        }
    } else {
        None
    }
}

/// What [`Command::parse`] says of a line that names no command.
pub open spec fn parse_error(s: Seq<char>) -> Seq<char> {
    "failed to parse command '"@ + s + "'"@
}

impl Command {
    /// The command that a line names, if it names one.
    ///
    /// ```text
    /// r | run                          Run
    /// s | step                         Step
    /// c | continue                     Continue
    /// q | quit                         Quit
    /// b <n>                            AddBreakpoint(n)
    /// del <n>                          RemoveBreakpoint(n)
    /// p reg <n> | pr <n>               PrintRegister(n), n at most 7
    /// p mem <a> [<l>] | pm <a> [<l>]   PrintMemory(a, l), l is 1 if left out
    /// ```
    ///
    /// A number is one or more decimal digits. The line names a command only
    /// as a whole: nothing may stand before or after it.
    pub open spec fn spec_parse(s: Seq<char>) -> Option<Command> {
        if s == "run"@ || s == "r"@ {
            Some(Command::Run)
        } else if s == "step"@ || s == "s"@ {
            Some(Command::Step)
        } else if s == "continue"@ || s == "c"@ {
            Some(Command::Continue)
        } else if s == "quit"@ || s == "q"@ {
            Some(Command::Quit)
        } else if has_prefix(s, "b "@) {
            breakpoint_to_add(s.skip("b "@.len() as int))
        } else if has_prefix(s, "del "@) {
            breakpoint_to_remove(s.skip("del "@.len() as int))
        } else if has_prefix(s, "p reg "@) {
            register_to_print(s.skip("p reg "@.len() as int))
        } else if has_prefix(s, "pr "@) {
            register_to_print(s.skip("pr "@.len() as int))
        } else if has_prefix(s, "p mem "@) {
            memory_to_print(s.skip("p mem "@.len() as int))
        } else if has_prefix(s, "pm "@) {
            memory_to_print(s.skip("pm "@.len() as int))
        } else {
            None
        }
    }

    /// How many frames the server sends in answer to this command.
    pub open spec fn spec_response_frames(self) -> nat {
        match self {
            Command::Nothing => 0,
            Command::Quit => 0,
            Command::Run => 2,
            Command::Continue => 2,
            _ => 1,
        }
    }

    /// Reads a command from a line of text. A line that names no command
    /// gives an error that quotes it.
    pub fn parse(text: &str) -> (r: Result<Command, String>)
        ensures
            match Command::spec_parse(text@) {
                Some(cmd) => r == Ok::<Command, String>(cmd),
                None => r matches Err(message) && message@ == parse_error(text@),
            },
    {
        let chars = to_chars(text);
        let found = if is_text(&chars, "run") || is_text(&chars, "r") {
            Some(Command::Run)
        } else if is_text(&chars, "step") || is_text(&chars, "s") {
            Some(Command::Step)
        } else if is_text(&chars, "continue") || is_text(&chars, "c") {
            Some(Command::Continue)
        } else if is_text(&chars, "quit") || is_text(&chars, "q") {
            Some(Command::Quit)
        } else if starts_with(&chars, "b ") {
            match parse_number(&chars, "b ".unicode_len(), chars.len()) {
                Some(address) => Some(Command::AddBreakpoint(address)),
                None => None,
            }
        } else if starts_with(&chars, "del ") {
            match parse_number(&chars, "del ".unicode_len(), chars.len()) {
                Some(address) => Some(Command::RemoveBreakpoint(address)),
                None => None,
            }
        } else if starts_with(&chars, "p reg ") {
            parse_register(&chars, "p reg ".unicode_len())
        } else if starts_with(&chars, "pr ") {
            parse_register(&chars, "pr ".unicode_len())
        } else if starts_with(&chars, "p mem ") {
            parse_memory(&chars, "p mem ".unicode_len())
        } else if starts_with(&chars, "pm ") {
            parse_memory(&chars, "pm ".unicode_len())
        } else {
            None
        };
        match found {
            Some(cmd) => Ok(cmd),
            None => {
                let mut message = String::from_str("failed to parse command '");
                message.append(text);
                message.append("'");
                Err(message)
            },
        }
    }

    /// How many frames to read from the server after sending this command.
    pub fn response_frames(&self) -> (n: usize)
        ensures
            n == self.spec_response_frames(),
    {
        match self {
            Command::Nothing => 0,
            Command::Quit => 0,
            Command::Run => 2,
            Command::Continue => 2,
            Command::Step => 1,
            Command::AddBreakpoint(_) => 1,
            Command::RemoveBreakpoint(_) => 1,
            Command::PrintRegister(_) => 1,
            Command::PrintMemory(_, _) => 1,
        }
    }
}

/// Whether `chars` begins with `word`.
fn starts_with(chars: &Vec<char>, word: &str) -> (r: bool)
    ensures
        r == has_prefix(chars@, word@),
{
    let n: usize = word.unicode_len();
    if chars.len() < n {
        return false;
    }
    let mut i: usize = 0;
    while i < n
        invariant
            i <= n,
            n == word@.len(),
            n <= chars@.len(),
            chars@.take(i as int) == word@.take(i as int),
        decreases n - i,
    {
        if chars[i] != word.get_char(i) {
            assert(chars@.take(n as int)[i as int] != word@[i as int]);
            return false;
        }
        i += 1;
        assert(chars@.take(i as int) =~= chars@.take(i - 1).push(chars@[i - 1]));
        assert(word@.take(i as int) =~= word@.take(i - 1).push(word@[i - 1]));
    }
    assert(word@.take(n as int) =~= word@);
    true
}

/// Whether `chars` is `word`.
fn is_text(chars: &Vec<char>, word: &str) -> (r: bool)
    ensures
        r == (chars@ == word@),
{
    let whole = starts_with(chars, word) && chars.len() == word.unicode_len();
    proof {
        if whole {
            assert(chars@.take(chars@.len() as int) =~= chars@);
        }
        if chars@ == word@ {
            assert(chars@.take(word@.len() as int) =~= word@);
        }
    }
    whole
}

/// The number that `chars[from..to]` writes.
fn parse_number(chars: &Vec<char>, from: usize, to: usize) -> (r: Option<usize>)
    requires
        from <= to <= chars@.len(),
    ensures
        r == number_of(chars@.subrange(from as int, to as int)),
{
    match parse_decimal(chars, from, to) {
        Some(n) => if n <= usize::MAX as u64 {
            Some(n as usize)
        } else {
            None
        },
        None => None,
    }
}

/// The command that the argument of `p reg` names, where the argument is
/// what follows the first `from` characters.
fn parse_register(chars: &Vec<char>, from: usize) -> (r: Option<Command>)
    requires
        from <= chars@.len(),
    ensures
        r == register_to_print(chars@.skip(from as int)),
{
    assert(chars@.skip(from as int) =~= chars@.subrange(from as int, chars@.len() as int));
    match parse_number(chars, from, chars.len()) {
        Some(register) => if register <= 7 {
            Some(Command::PrintRegister(register))
        } else {
            None
        },
        None => None,
    }
}

/// The command that the arguments of `p mem` name, where the arguments are
/// what follows the first `from` characters.
fn parse_memory(chars: &Vec<char>, from: usize) -> (r: Option<Command>)
    requires
        from <= chars@.len(),
    ensures
        r == memory_to_print(chars@.skip(from as int)),
{
    let ghost rest = chars@.skip(from as int);
    let len: usize = chars.len();
    let mut end: usize = from;
    assert(rest.skip(0) =~= rest);
    while end < len && char_is_digit(chars[end])
        invariant
            from <= end <= len,
            len == chars@.len(),
            rest == chars@.skip(from as int),
            leading_digits(rest) == (end - from) + leading_digits(rest.skip(end - from)),
        decreases len - end,
    {
        proof {
            let tail = rest.skip(end - from);
            assert(tail[0] == chars@[end as int]);
            assert(tail.skip(1) =~= rest.skip(end - from + 1));
        }
        end += 1;
    }
    proof {
        let tail = rest.skip(end - from);
        if end < len {
            assert(tail[0] == chars@[end as int]);
        }
        assert(leading_digits(rest) == end - from);
        assert(rest =~= chars@.subrange(from as int, len as int));
        assert(rest.take(end - from) =~= chars@.subrange(from as int, end as int));
    }
    if end == len {
        match parse_number(chars, from, len) {
            Some(address) => Some(Command::PrintMemory(address, 1)),
            None => None,
        }
    } else if chars[end] == ' ' {
        assert(rest.skip(end - from + 1) =~= chars@.subrange(end + 1, len as int));
        match parse_number(chars, from, end) {
            Some(address) => match parse_number(chars, end + 1, len) {
                Some(count) => Some(Command::PrintMemory(address, count)),
                None => None,
            },
            None => None,
        }
    } else {
        None
    }
}

} // verus!
