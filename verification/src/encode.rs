//! From a listing back to words: what each record encodes, and the proof
//! that a listing encodes the words it was made from.

use vstd::prelude::*;
use crate::opcodes::OpCodes;
use crate::decompile::{fuse, listing, next_index, operand_text, out_text, record_at, Record};
use crate::text::{decimal, decimal_value, has_prefix, is_digit, lemma_decimal_round_trip};

verus! {

/// The operand that a text shows: `reg` and a number is that register, a
/// number alone is that literal.
pub open spec fn operand_of_text(text: Seq<char>) -> u16 {
    if has_prefix(text, "reg"@) {
        (32768 + decimal_value(text.skip(3))) as u16
    } else {
        decimal_value(text) as u16
    }
}

/// The operand of `out` that a text shows: the code of its character.
pub open spec fn operand_of_char(text: Seq<char>) -> u16 {
    text[0] as u16
}

/// The operands that the texts show.
pub open spec fn encode_args(args: Seq<Seq<char>>) -> Seq<u16> {
    args.map_values(|text: Seq<char>| operand_of_text(text))
}

/// The `out` instructions that write the characters of `args`, one
/// instruction for each.
pub open spec fn encode_out(args: Seq<Seq<char>>) -> Seq<u16>
    decreases args.len(),
{
    if args.len() == 0 {
        Seq::empty()
    } else {
        encode_out(args.drop_last()) + seq![OpCodes::out.number(), operand_of_char(args.last())]
    }
}

/// The words that a record stands for: the number of its opcode and its
/// operands; for `out`, one instruction for each character it shows.
pub open spec fn encode_record(r: Record) -> Seq<u16> {
    if r.code == OpCodes::out {
        encode_out(r.args)
    } else {
        seq![r.code.number()] + encode_args(r.args)
    }
}

/// The words that a listing stands for.
pub open spec fn encode(rs: Seq<Record>) -> Seq<u16>
    decreases rs.len(),
{
    if rs.len() == 0 {
        Seq::empty()
    } else {
        encode(rs.drop_last()) + encode_record(rs.last())
    }
}

/// Whether the walk from index `i` meets nothing but whole instructions whose
/// operands a listing shows without loss: no unknown word, no instruction cut
/// short by the end of the words, and no operand of `out` above 255.
pub open spec fn whole(words: Seq<u16>, i: int) -> bool
    decreases words.len() - i,
{
    if i < 0 || i >= words.len() {
        true
    } else {
        let code = OpCodes::spec_parse(words[i]);
        &&& !(code is unknown)
        &&& i + 1 + code.spec_argcount() <= words.len()
        &&& code == OpCodes::out ==> words[i + 1] <= 255
        &&& whole(words, i + 1 + code.spec_argcount())
    }
}

/// The text of an operand shows that operand.
pub proof fn lemma_operand_round_trip(w: u16)
    ensures
        operand_of_text(operand_text(w)) == w,
{
    reveal_strlit("reg");
    if !(32768 <= w <= 32775) {
        lemma_decimal_round_trip(w as nat);
        let text = decimal(w as nat);
        assert(is_digit(text[0]));
        if has_prefix(text, "reg"@) {
            assert(text.take(3)[0] == "reg"@[0]);
        }
    } else {
        let n = (w - 32768) as nat;
        lemma_decimal_round_trip(n);
        let text = "reg"@ + decimal(n);
        assert(text.take(3) =~= "reg"@);
        assert(text.skip(3) =~= decimal(n));
    }
}

/// The text of an operand of `out` that is at most 255 shows that operand.
pub proof fn lemma_out_round_trip(w: u16)
    requires
        w <= 255,
    ensures
        operand_of_char(out_text(w)) == w,
{
}

/// The words of two listings one after the other are the words of the first
/// followed by those of the second.
pub proof fn lemma_encode_concat(a: Seq<Record>, b: Seq<Record>)
    ensures
        encode(a + b) == encode(a) + encode(b),
    decreases b.len(),
{
    if b.len() == 0 {
        assert(a + b =~= a);
        assert(encode(a) + encode(b) =~= encode(a));
    } else {
        lemma_encode_concat(a, b.drop_last());
        assert((a + b).drop_last() =~= a + b.drop_last());
        assert((a + b).last() == b.last());
        assert(encode(a + b) =~= encode(a) + encode(b));
    }
}

/// The record of a whole instruction stands for the words of that
/// instruction, whatever its address.
pub proof fn lemma_record_encodes(words: Seq<u16>, base: nat, i: int)
    requires
        0 <= i < words.len(),
        whole(words, i),
    ensures
        encode_record(Record { idx: (base + i) as nat, ..record_at(words, i) })
            == words.subrange(i, next_index(words, i)),
{
    let code = OpCodes::spec_parse(words[i]);
    let r = Record { idx: (base + i) as nat, ..record_at(words, i) };
    let n = code.spec_argcount();
    assert(r.args.len() == n);
    crate::opcodes::lemma_number_parse(words[i]);
    if code == OpCodes::out {
        lemma_out_round_trip(words[i + 1]);
        assert(r.args.drop_last() =~= Seq::<Seq<char>>::empty());
        assert(encode_out(r.args.drop_last()) =~= Seq::<u16>::empty());
        assert(encode_record(r) =~= words.subrange(i, i + 2));
    } else {
        assert forall|k: int| 0 <= k < n implies encode_args(r.args)[k] == words[i + 1 + k] by {
            lemma_operand_round_trip(words[i + 1 + k]);
        }
        assert(encode_record(r) =~= words.subrange(i, i + 1 + n));
    }
}

/// The listing of a walk that meets whole instructions only stands for the
/// words that were walked.
pub proof fn lemma_listing_encodes(words: Seq<u16>, base: nat, i: int)
    requires
        0 <= i <= words.len(),
        whole(words, i),
    ensures
        encode(listing(words, base, i)) == words.subrange(i, words.len() as int),
    decreases words.len() - i,
{
    if i < words.len() {
        let next = next_index(words, i);
        let r = Record { idx: (base + i) as nat, ..record_at(words, i) };
        lemma_record_encodes(words, base, i);
        lemma_listing_encodes(words, base, next);
        lemma_encode_concat(seq![r], listing(words, base, next));
        assert(seq![r].drop_last() =~= Seq::<Record>::empty());
        assert(seq![r].last() == r);
        assert(encode(seq![r].drop_last()) =~= Seq::<u16>::empty());
        assert(encode(seq![r]) =~= encode_record(r));
        assert(words.subrange(i, next) + words.subrange(next, words.len() as int)
            =~= words.subrange(i, words.len() as int));
    } else {
        assert(words.subrange(i, words.len() as int) =~= Seq::<u16>::empty());
    }
}

/// The instructions that write two runs of characters one after the other
/// are those of the first run followed by those of the second.
pub proof fn lemma_encode_out_concat(a: Seq<Seq<char>>, b: Seq<Seq<char>>)
    ensures
        encode_out(a + b) == encode_out(a) + encode_out(b),
    decreases b.len(),
{
    if b.len() == 0 {
        assert(a + b =~= a);
        assert(encode_out(a) + encode_out(b) =~= encode_out(a));
    } else {
        lemma_encode_out_concat(a, b.drop_last());
        assert((a + b).drop_last() =~= a + b.drop_last());
        assert((a + b).last() == b.last());
        assert(encode_out(a + b) =~= encode_out(a) + encode_out(b));
    }
}

/// The fused listing ends with the opcode that the listing ends with, and
/// stands for the same words.
pub proof fn lemma_fuse_keeps_words(rs: Seq<Record>)
    ensures
        encode(fuse(rs)) == encode(rs),
        rs.len() > 0 ==> fuse(rs).len() > 0 && fuse(rs).last().code == rs.last().code,
    decreases rs.len(),
{
    if rs.len() > 0 {
        let front = rs.drop_last();
        let last = rs.last();
        lemma_fuse_keeps_words(front);
        let before = fuse(front);
        if last.code == OpCodes::out && before.len() > 0 && before.last().code == OpCodes::out {
            let grown = Record { args: before.last().args + last.args, ..before.last() };
            lemma_encode_out_concat(before.last().args, last.args);
            assert(before.drop_last().push(grown).drop_last() =~= before.drop_last());
            assert(encode(fuse(rs)) =~= encode(before.drop_last()) + encode_record(grown));
            assert(encode(before) =~= encode(before.drop_last()) + encode_record(before.last()));
            assert(encode(fuse(rs)) =~= encode(rs));
        } else {
            assert(before.push(last).drop_last() =~= before);
        }
    }
}

/// A program of whole instructions can be read back from its listing, fused
/// or not: the records stand for the very words that were disassembled, each
/// character of a fused `out` record for one `out` instruction.
pub proof fn lemma_disassembly_round_trip(words: Seq<u16>, base: nat)
    requires
        whole(words, 0),
    ensures
        encode(listing(words, base, 0)) == words,
        encode(fuse(listing(words, base, 0))) == words,
{
    lemma_listing_encodes(words, base, 0);
    assert(words.subrange(0, words.len() as int) =~= words);
    lemma_fuse_keeps_words(listing(words, base, 0));
}

} // verus!
