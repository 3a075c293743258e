//! The instruction set: the opcodes, their numbers, their names and how many
//! operands each takes.

use vstd::prelude::*;
use vstd::string::*;
use crate::text::{decimal, push_decimal};

verus! {

/// An opcode, or a word that is none.
#[allow(non_camel_case_types)]
#[derive(Debug, Clone, Copy, PartialEq, Eq, Structural)]
pub enum OpCodes {
    halt,
    set,
    push,
    pop,
    eq,
    gt,
    jmp,
    jt,
    jf,
    add,
    mult,
    mod_,
    and,
    or,
    not,
    rmem,
    wmem,
    call,
    ret,
    out,
    in_,
    nop,
    /// A word above 21, which names no instruction.
    unknown(u16),
}

impl OpCodes {
    /// The opcode that the word `val` encodes.
    pub open spec fn spec_parse(val: u16) -> OpCodes {
        match val {
            0 => OpCodes::halt,
            1 => OpCodes::set,
            2 => OpCodes::push,
            3 => OpCodes::pop,
            4 => OpCodes::eq,
            5 => OpCodes::gt,
            6 => OpCodes::jmp,
            7 => OpCodes::jt,
            8 => OpCodes::jf,
            9 => OpCodes::add,
            10 => OpCodes::mult,
            11 => OpCodes::mod_,
            12 => OpCodes::and,
            13 => OpCodes::or,
            14 => OpCodes::not,
            15 => OpCodes::rmem,
            16 => OpCodes::wmem,
            17 => OpCodes::call,
            18 => OpCodes::ret,
            19 => OpCodes::out,
            20 => OpCodes::in_,
            21 => OpCodes::nop,
            _ => OpCodes::unknown(val),
        }
    }

    /// The word that encodes this opcode.
    pub open spec fn number(self) -> u16 {
        match self {
            OpCodes::halt => 0,
            OpCodes::set => 1,
            OpCodes::push => 2,
            OpCodes::pop => 3,
            OpCodes::eq => 4,
            OpCodes::gt => 5,
            OpCodes::jmp => 6,
            OpCodes::jt => 7,
            OpCodes::jf => 8,
            OpCodes::add => 9,
            OpCodes::mult => 10,
            OpCodes::mod_ => 11,
            OpCodes::and => 12,
            OpCodes::or => 13,
            OpCodes::not => 14,
            OpCodes::rmem => 15,
            OpCodes::wmem => 16,
            OpCodes::call => 17,
            OpCodes::ret => 18,
            OpCodes::out => 19,
            OpCodes::in_ => 20,
            OpCodes::nop => 21,
            OpCodes::unknown(val) => val,
        }
    }

    /// How many operand words follow the opcode. An unknown word stands
    /// alone.
    pub open spec fn spec_argcount(self) -> nat {
        match self {
            OpCodes::halt => 0,
            OpCodes::set => 2,
            OpCodes::push => 1,
            OpCodes::pop => 1,
            OpCodes::eq => 3,
            OpCodes::gt => 3,
            OpCodes::jmp => 1,
            OpCodes::jt => 2,
            OpCodes::jf => 2,
            OpCodes::add => 3,
            OpCodes::mult => 3,
            OpCodes::mod_ => 3,
            OpCodes::and => 3,
            OpCodes::or => 3,
            OpCodes::not => 2,
            OpCodes::rmem => 2,
            OpCodes::wmem => 2,
            OpCodes::call => 1,
            OpCodes::ret => 0,
            OpCodes::out => 1,
            OpCodes::in_ => 1,
            OpCodes::nop => 0,
            OpCodes::unknown(_) => 0,
        }
    }

    /// The name under which a listing shows this opcode.
    pub open spec fn mnemonic(self) -> Seq<char> {
        match self {
            OpCodes::halt => "halt"@,
            OpCodes::set => "set"@,
            OpCodes::push => "push"@,
            OpCodes::pop => "pop"@,
            OpCodes::eq => "eq"@,
            OpCodes::gt => "gt"@,
            OpCodes::jmp => "jmp"@,
            OpCodes::jt => "jt"@,
            OpCodes::jf => "jf"@,
            OpCodes::add => "add"@,
            OpCodes::mult => "mult"@,
            OpCodes::mod_ => "mod"@,
            OpCodes::and => "and"@,
            OpCodes::or => "or"@,
            OpCodes::not => "not"@,
            OpCodes::rmem => "rmem"@,
            OpCodes::wmem => "wmem"@,
            OpCodes::call => "call"@,
            OpCodes::ret => "ret"@,
            OpCodes::out => "out"@,
            OpCodes::in_ => "in"@,
            OpCodes::nop => "nop"@,
            OpCodes::unknown(val) => "unknown("@ + decimal(val as nat) + ")"@,
        }
    }

    /// Decodes a word. Every word decodes: those above 21 to `unknown`.
    pub fn parse(val: u16) -> (r: OpCodes)
        ensures
            r == OpCodes::spec_parse(val),
            r.number() == val,
            r is unknown <==> val > 21,
    {
        match val {
            0 => OpCodes::halt,
            1 => OpCodes::set,
            2 => OpCodes::push,
            3 => OpCodes::pop,
            4 => OpCodes::eq,
            5 => OpCodes::gt,
            6 => OpCodes::jmp,
            7 => OpCodes::jt,
            8 => OpCodes::jf,
            9 => OpCodes::add,
            10 => OpCodes::mult,
            11 => OpCodes::mod_,
            12 => OpCodes::and,
            13 => OpCodes::or,
            14 => OpCodes::not,
            15 => OpCodes::rmem,
            16 => OpCodes::wmem,
            17 => OpCodes::call,
            18 => OpCodes::ret,
            19 => OpCodes::out,
            20 => OpCodes::in_,
            21 => OpCodes::nop,
            _ => OpCodes::unknown(val),
        }
    }

    /// The number of operand words that follow the opcode: none after a word
    /// that is no opcode.
    pub fn argcount(&self) -> (n: usize)
        ensures
            n == self.spec_argcount(),
            n <= 3,
    {
        match self {
            OpCodes::halt => 0,
            OpCodes::set => 2,
            OpCodes::push => 1,
            OpCodes::pop => 1,
            OpCodes::eq => 3,
            OpCodes::gt => 3,
            OpCodes::jmp => 1,
            OpCodes::jt => 2,
            OpCodes::jf => 2,
            OpCodes::add => 3,
            OpCodes::mult => 3,
            OpCodes::mod_ => 3,
            OpCodes::and => 3,
            OpCodes::or => 3,
            OpCodes::not => 2,
            OpCodes::rmem => 2,
            OpCodes::wmem => 2,
            OpCodes::call => 1,
            OpCodes::ret => 0,
            OpCodes::out => 1,
            OpCodes::in_ => 1,
            OpCodes::nop => 0,
            OpCodes::unknown(_) => 0,
        }
    }

    /// The opcode's name as text.
    pub fn to_string(&self) -> (s: String)
        ensures
            s@ == self.mnemonic(),
    {
        match self {
            OpCodes::halt => String::from_str("halt"),
            OpCodes::set => String::from_str("set"),
            OpCodes::push => String::from_str("push"),
            OpCodes::pop => String::from_str("pop"),
            OpCodes::eq => String::from_str("eq"),
            OpCodes::gt => String::from_str("gt"),
            OpCodes::jmp => String::from_str("jmp"),
            OpCodes::jt => String::from_str("jt"),
            OpCodes::jf => String::from_str("jf"),
            OpCodes::add => String::from_str("add"),
            OpCodes::mult => String::from_str("mult"),
            OpCodes::mod_ => String::from_str("mod"),
            OpCodes::and => String::from_str("and"),
            OpCodes::or => String::from_str("or"),
            OpCodes::not => String::from_str("not"),
            OpCodes::rmem => String::from_str("rmem"),
            OpCodes::wmem => String::from_str("wmem"),
            OpCodes::call => String::from_str("call"),
            OpCodes::ret => String::from_str("ret"),
            OpCodes::out => String::from_str("out"),
            OpCodes::in_ => String::from_str("in"),
            OpCodes::nop => String::from_str("nop"),
            OpCodes::unknown(val) => {
                let mut s = String::from_str("unknown(");
                push_decimal(&mut s, *val as u64);
                s.append(")");
                s
            },
        }
    }
}

/// Decoding the number of an opcode gives the opcode back, for each of the
/// 22 instructions and for every `unknown` that holds a word above 21.
pub proof fn lemma_parse_number(op: OpCodes)
    requires
        op matches OpCodes::unknown(val) ==> val > 21,
    ensures
        OpCodes::spec_parse(op.number()) == op,
{
}

/// A word decodes to the opcode with that number, and to an instruction
/// exactly when it is at most 21.
pub proof fn lemma_number_parse(val: u16)
    ensures
        OpCodes::spec_parse(val).number() == val,
        OpCodes::spec_parse(val) is unknown <==> val > 21,
        OpCodes::spec_parse(val).spec_argcount() <= 3,
{
}

} // verus!
