//! The disassembler: from the words of a program to a listing, and from a
//! listing to text.

use vstd::prelude::*;
use vstd::string::*;
use crate::opcodes::OpCodes;
use crate::program::{Program, words_of_bytes};
use crate::text::{decimal, push_decimal, push_char, trim_end, trim_end_string};

verus! {

/// One line of a listing, as mathematics: the opcode, the address of the
/// instruction and the text of each operand.
pub struct Record {
    pub code: OpCodes,
    pub idx: nat,
    pub args: Seq<Seq<char>>,
}

/// One line of a listing.
#[derive(Debug)]
pub struct OpData {
    code: OpCodes,
    idx: usize,
    args: Vec<String>,
}

impl View for OpData {
    type V = Record;

    closed spec fn view(&self) -> Record {
        Record {
            code: self.code,
            idx: self.idx as nat,
            args: self.args@.map_values(|s: String| s@),
        }
    }
}

impl Clone for OpData {
    fn clone(&self) -> (r: OpData)
        ensures
            r@ == self@,
    {
        let mut args: Vec<String> = Vec::new();
        let mut i: usize = 0;
        while i < self.args.len()
            invariant
                i <= self.args@.len(),
                args@.map_values(|s: String| s@) == self@.args.take(i as int),
            decreases self.args@.len() - i,
        {
            let text = self.args[i].clone();
            assert(text@ == self.args@[i as int]@);
            let ghost before = args@.map_values(|s: String| s@);
            args.push(text);
            i += 1;
            assert(args@.map_values(|s: String| s@) =~= before.push(self.args@[i - 1]@));
            assert(self@.args.take(i as int) =~= before.push(self.args@[i - 1]@));
        }
        assert(self@.args.take(i as int) =~= self@.args);
        OpData { code: self.code, idx: self.idx, args }
    }
}

/// The records that a vector of lines stands for.
pub open spec fn records(lines: Seq<OpData>) -> Seq<Record> {
    lines.map_values(|d: OpData| d@)
}

/// How a listing shows an operand: a register as `reg` and its number, a
/// literal in decimal. An operand that is neither is shown as its number
/// too.
pub open spec fn operand_text(w: u16) -> Seq<char> {
    if 32768 <= w <= 32775 {
        "reg"@ + decimal((w - 32768) as nat)
    } else {
        decimal(w as nat)
    }
}

/// The character that `out` writes for an operand: the one whose code is the
/// operand's low byte.
pub open spec fn out_char(w: u16) -> char {
    ((w % 256) as u8) as char
}

/// How a listing shows the operand of `out`: as the character it writes.
pub open spec fn out_text(w: u16) -> Seq<char> {
    seq![out_char(w)]
}

/// What a listing shows in place of operand `k` where the words end before
/// it.
pub open spec fn missing_text(k: nat) -> Seq<char> {
    "<arg"@ + decimal(k) + "?>"@
}

/// How many operands the record of the instruction at index `i` shows: all
/// that the instruction takes, or, where the words end before, those that are
/// there and one marker for the first that is missing.
pub open spec fn shown_args(words: Seq<u16>, i: int) -> nat {
    let wanted = OpCodes::spec_parse(words[i]).spec_argcount();
    if wanted <= words.len() - i {
        wanted
    } else {
        (words.len() - i) as nat
    }
}

/// The text of operand `k` of the instruction at index `i`.
pub open spec fn arg_text(words: Seq<u16>, i: int, k: int) -> Seq<char> {
    if i + 1 + k >= words.len() {
        missing_text(k as nat)
    } else if OpCodes::spec_parse(words[i]) == OpCodes::out {
        out_text(words[i + 1 + k])
    } else {
        operand_text(words[i + 1 + k])
    }
}

/// The record of the instruction at index `i`, with `i` as its address.
pub open spec fn record_at(words: Seq<u16>, i: int) -> Record {
    Record {
        code: OpCodes::spec_parse(words[i]),
        idx: i as nat,
        args: Seq::new(shown_args(words, i), |k: int| arg_text(words, i, k)),
    }
}

/// Where the walk goes on after index `i`: at the next word after an unknown
/// word, and after the last operand of an instruction; at the end of the
/// words where they end before.
pub open spec fn next_index(words: Seq<u16>, i: int) -> int {
    let next = i + 1 + OpCodes::spec_parse(words[i]).spec_argcount();
    if next <= words.len() {
        next
    } else {
        words.len() as int
    }
}

/// The listing of the walk from index `i`: unknown words give nothing, each
/// instruction gives its record, with `base` added to its index as address.
pub open spec fn listing(words: Seq<u16>, base: nat, i: int) -> Seq<Record>
    decreases words.len() - i,
{
    if i < 0 || i >= words.len() {
        Seq::empty()
    } else if OpCodes::spec_parse(words[i]) is unknown {
        listing(words, base, i + 1)
    } else {
        seq![Record { idx: (base + i) as nat, ..record_at(words, i) }] + listing(
            words,
            base,
            next_index(words, i),
        )
    }
}

/// The operand texts one after the other: each followed by a space where
/// `spaced`, nothing between them otherwise.
pub open spec fn joined(args: Seq<Seq<char>>, spaced: bool) -> Seq<char>
    decreases args.len(),
{
    if args.len() == 0 {
        Seq::empty()
    } else {
        joined(args.drop_last(), spaced) + args.last() + if spaced {
            seq![' ']
        } else {
            Seq::empty()
        }
    }
}

impl Record {
    /// The operands as one text, before any white space is stripped: run
    /// together for `out`, each followed by a space for any other opcode.
    pub open spec fn args_joined(self) -> Seq<char> {
        joined(self.args, self.code != OpCodes::out)
    }

    /// The operands as one text, without white space at its end.
    pub open spec fn argtext(self) -> Seq<char> {
        trim_end(self.args_joined())
    }

    /// The line that shows the record: address, colon, space, mnemonic,
    /// space, operands; without white space at its end.
    pub open spec fn text(self) -> Seq<char> {
        trim_end(decimal(self.idx) + ": "@ + self.code.mnemonic() + " "@ + self.args_joined())
    }
}

/// The text of a listing: the line of each record, each ended by a newline.
pub open spec fn listing_text(rs: Seq<Record>) -> Seq<char>
    decreases rs.len(),
{
    if rs.len() == 0 {
        Seq::empty()
    } else {
        listing_text(rs.drop_last()) + rs.last().text() + "\n"@
    }
}

/// The listing with each run of consecutive `out` records made one record,
/// which has the address of the first of the run and, as operands, the
/// operands of all records of the run in order.
pub open spec fn fuse(rs: Seq<Record>) -> Seq<Record>
    decreases rs.len(),
{
    if rs.len() == 0 {
        Seq::empty()
    } else {
        let before = fuse(rs.drop_last());
        let last = rs.last();
        if last.code == OpCodes::out && before.len() > 0 && before.last().code == OpCodes::out {
            before.drop_last().push(
                Record { args: before.last().args + last.args, ..before.last() },
            )
        } else {
            before.push(last)
        }
    }
}

/// The text of an operand.
fn parse_arg(value: u16) -> (text: String)
    ensures
        text@ == operand_text(value),
{
    if 32768 <= value && value <= 32775 {
        let mut text = String::from_str("reg");
        push_decimal(&mut text, (value - 32768) as u64);
        text
    } else {
        let mut text = String::new();
        push_decimal(&mut text, value as u64);
        assert(text@ =~= operand_text(value));
        text
    }
}

/// The text of the operand of `out`.
fn parse_char(value: u16) -> (text: String)
    ensures
        text@ == out_text(value),
{
    let mut text = String::new();
    push_char(&mut text, ((value % 256) as u8) as char);
    assert(text@ =~= out_text(value));
    text
}

/// The marker for a missing operand.
fn parse_missing(k: usize) -> (text: String)
    ensures
        text@ == missing_text(k as nat),
{
    let mut text = String::from_str("<arg");
    push_decimal(&mut text, k as u64);
    text.append("?>");
    text
}

impl OpData {
    /// A record of `code` at address `idx`, without operands.
    pub fn from(code: OpCodes, idx: usize) -> (r: OpData)
        ensures
            r@ == (Record { code, idx: idx as nat, args: Seq::empty() }),
    {
        let r = OpData { idx, code, args: Vec::new() };
        assert(r@.args =~= Seq::empty());
        r
    }

    /// The operand texts one after the other, as [`Record::args_joined`]
    /// says.
    fn args_joined(&self) -> (text: String)
        ensures
            text@ == self@.args_joined(),
    {
        let spaced = self.code != OpCodes::out;
        let ghost args = self@.args;
        let mut text = String::new();
        let mut i: usize = 0;
        while i < self.args.len()
            invariant
                i <= self.args@.len(),
                args == self@.args,
                args.len() == self.args@.len(),
                spaced == (self.code != OpCodes::out),
                text@ == joined(args.take(i as int), spaced),
            decreases self.args@.len() - i,
        {
            proof {
                assert(args.take(i + 1).drop_last() =~= args.take(i as int));
                assert(args.take(i + 1).last() == self.args@[i as int]@);
            }
            text.append(self.args[i].as_str());
            if spaced {
                push_char(&mut text, ' ');
            }
            i += 1;
            assert(text@ =~= joined(args.take(i as int), spaced));
        }
        assert(args.take(i as int) =~= args);
        text
    }

    /// The operands as one text: run together for `out`, separated by spaces
    /// for any other opcode; without white space at the end.
    pub fn argtext(&self) -> (text: String)
        ensures
            text@ == self@.argtext(),
    {
        let whole = self.args_joined();
        trim_end_string(whole.as_str())
    }

    /// The line that shows this record.
    pub fn to_string(&self) -> (text: String)
        ensures
            text@ == self@.text(),
    {
        let mut line = String::new();
        push_decimal(&mut line, self.idx as u64);
        line.append(": ");
        line.append(self.code.to_string().as_str());
        line.append(" ");
        line.append(self.args_joined().as_str());
        assert(line@ =~= decimal(self@.idx) + ": "@ + self@.code.mnemonic() + " "@
            + self@.args_joined());
        trim_end_string(line.as_str())
    }
}

/// The record of the instruction at index `idx` of `data`, with `idx` as its
/// address. Where `data` ends before an operand, a marker stands for the
/// first that is missing and the record ends there.
fn parse_op(code: &OpCodes, data: &[u16], idx: usize, argcount: usize) -> (r: OpData)
    requires
        idx < data@.len(),
        *code == OpCodes::spec_parse(data@[idx as int]),
        argcount == code.spec_argcount(),
    ensures
        r@ == record_at(data@, idx as int),
{
    let mut retr = OpData::from(*code, idx);
    let len: usize = data.len();
    let available: usize = len - idx - 1;
    let mut k: usize = 0;
    while k < argcount
        invariant
            k <= argcount <= 3,
            idx < len,
            len == data@.len(),
            available == len - idx - 1,
            k <= available,
            *code == OpCodes::spec_parse(data@[idx as int]),
            argcount == code.spec_argcount(),
            retr@.code == *code,
            retr@.idx == idx,
            retr@.args == Seq::new(k as nat, |j: int| arg_text(data@, idx as int, j)),
        decreases argcount - k,
    {
        let ghost before = retr@.args;
        if k >= available {
            retr.args.push(parse_missing(k));
            assert(retr@.args =~= before.push(missing_text(k as nat)));
            assert(retr@.args =~= Seq::new((k + 1) as nat, |j: int| arg_text(data@, idx as int, j)));
            assert(retr@ == record_at(data@, idx as int));
            return retr;
        }
        let word: u16 = data[idx + 1 + k];
        let text = match code {
            OpCodes::out => parse_char(word),
            _ => parse_arg(word),
        };
        let ghost shown = text@;
        retr.args.push(text);
        k += 1;
        assert(retr@.args =~= before.push(shown));
        assert(retr@.args =~= Seq::new(k as nat, |j: int| arg_text(data@, idx as int, j)));
    }
    assert(retr@ == record_at(data@, idx as int));
    retr
}

/// Disassembles `data`: one record for each instruction that a walk from the
/// first word meets, in order, with `offset` added to its index as address.
/// Words that are no opcode are passed over.
pub fn parse_data_offset(data: Vec<u16>, offset: usize) -> (listed: Vec<OpData>)
    requires
        data@.len() + offset <= usize::MAX,
    ensures
        records(listed@) == listing(data@, offset as nat, 0),
{
    let mut retr: Vec<OpData> = Vec::new();
    let mut idx: usize = 0;
    while idx < data.len()
        invariant
            data@.len() + offset <= usize::MAX,
            listing(data@, offset as nat, 0) == records(retr@) + listing(
                data@,
                offset as nat,
                idx as int,
            ),
        decreases data@.len() - idx,
    {
        let value = OpCodes::parse(data[idx]);
        match value {
            OpCodes::unknown(_) => {
                idx += 1;
            },
            _ => {
                let ghost old_idx = idx;
                let argcount: usize = value.argcount();
                let mut op = parse_op(&value, data.as_slice(), idx, argcount);
                op.idx = idx + offset;
                let ghost before = records(retr@);
                retr.push(op);
                proof {
                    assert(records(retr@) =~= before.push(
                        Record { idx: (offset + idx) as nat, ..record_at(data@, idx as int) },
                    ));
                    assert(records(retr@) + listing(
                        data@,
                        offset as nat,
                        next_index(data@, idx as int),
                    ) =~= before + listing(data@, offset as nat, idx as int));
                }
                idx = if data.len() - idx - 1 < argcount {
                    data.len()
                } else {
                    idx + 1 + argcount
                };
                assert(idx == next_index(data@, old_idx as int));
            },
        }
    }
    assert(records(retr@) + Seq::<Record>::empty() =~= records(retr@));
    retr
}

/// Disassembles `data`, with each instruction's index as its address.
pub fn parse_data(data: Vec<u16>) -> (listed: Vec<OpData>)
    ensures
        records(listed@) == listing(data@, 0, 0),
{
    assert(data@.len() == data.len());
    parse_data_offset(data, 0)
}

/// Disassembles the program that the bytes of a binary file encode.
pub fn parse_file(contents: &[u8]) -> (listed: Vec<OpData>)
    ensures
        records(listed@) == listing(words_of_bytes(contents@), 0, 0),
{
    let program = Program::parse_file("", contents);
    parse_data(program.data)
}

/// Makes one record of each run of consecutive `out` records, so that the
/// characters they write read as text. The record has the address of the
/// first of the run; the addresses of the others are gone.
pub fn cleanup(input: Vec<OpData>) -> (output: Vec<OpData>)
    ensures
        records(output@) == fuse(records(input@)),
{
    let ghost rs = records(input@);
    let mut output: Vec<OpData> = Vec::new();
    let mut idx: usize = 0;
    while idx < input.len()
        invariant
            idx <= input@.len(),
            rs == records(input@),
            records(output@) == fuse(rs.take(idx as int)),
            idx < rs.len() && rs[idx as int].code == OpCodes::out ==> records(output@).len() == 0
                || records(output@).last().code != OpCodes::out,
        decreases input@.len() - idx,
    {
        let curr = input[idx].clone();
        let ghost done = records(output@);
        let ghost first = rs[idx as int];
        proof {
            assert(rs.take(idx + 1).drop_last() =~= rs.take(idx as int));
            assert(rs.take(idx + 1).last() == first);
            assert(first == curr@);
        }
        if curr.code != OpCodes::out {
            output.push(curr);
            idx += 1;
            assert(records(output@) =~= done.push(first));
            continue;
        }
        let mut newdata = OpData::from(curr.code, curr.idx);
        let mut args: Vec<String> = curr.args;
        let mut count: usize = 1;
        while idx + count < input.len() && input[idx + count].code == OpCodes::out
            invariant
                1 <= count,
                idx + count <= input@.len(),
                rs == records(input@),
                first == rs[idx as int],
                first.code == OpCodes::out,
                fuse(rs.take(idx + count)) == done.push(
                    Record {
                        code: OpCodes::out,
                        idx: first.idx,
                        args: args@.map_values(|s: String| s@),
                    },
                ),
            decreases input@.len() - idx - count,
        {
            let ghost shown = args@.map_values(|s: String| s@);
            let mut next = input[idx + count].clone();
            proof {
                assert(rs.take(idx + count + 1).drop_last() =~= rs.take(idx + count));
                assert(rs.take(idx + count + 1).last() == rs[idx + count]);
                assert(rs[idx + count] == next@);
            }
            args.append(&mut next.args);
            count += 1;
            proof {
                assert(args@.map_values(|s: String| s@) =~= shown + rs[idx + count - 1].args);
                let fused = fuse(rs.take(idx + count - 1));
                assert(fused.drop_last() =~= done);
            }
        }
        idx += count;
        newdata.args = args;
        output.push(newdata);
        assert(records(output@) =~= fuse(rs.take(idx as int)));
    }
    assert(rs.take(idx as int) =~= rs);
    output
}

/// The text of a listing: one line for each record, each ended by a newline.
pub fn serialize(input: Vec<OpData>) -> (text: String)
    ensures
        text@ == listing_text(records(input@)),
{
    let ghost rs = records(input@);
    let mut retr = String::new();
    let mut i: usize = 0;
    while i < input.len()
        invariant
            i <= input@.len(),
            rs == records(input@),
            retr@ == listing_text(rs.take(i as int)),
        decreases input@.len() - i,
    {
        proof {
            assert(rs.take(i + 1).drop_last() =~= rs.take(i as int));
            assert(rs.take(i + 1).last() == input@[i as int]@);
        }
        retr.append(input[i].to_string().as_str());
        retr.append("\n");
        i += 1;
    }
    assert(rs.take(i as int) =~= rs);
    retr
}

/// The listing of the program that the bytes of a binary file encode, as
/// text, with runs of `out` made one line each.
pub fn decompile_file(contents: &[u8]) -> (text: String)
    ensures
        text@ == listing_text(fuse(listing(words_of_bytes(contents@), 0, 0))),
{
    let data = parse_file(contents);
    let clean_data = cleanup(data);
    serialize(clean_data)
}

} // verus!
