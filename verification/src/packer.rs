//! The packer: from a text of decimal numbers to the bytes of a program
//! binary.

use vstd::prelude::*;
use crate::program::words_of_bytes;
use crate::text::{all_digits, decimal_value, parse_decimal, to_chars, trim, trim_bounds};

verus! {

/// The pieces of `s` between its commas. There is always at least one, and
/// any of them may be empty.
pub open spec fn fields(s: Seq<char>) -> Seq<Seq<char>>
    decreases s.len(),
{
    if s.len() == 0 {
        seq![Seq::empty()]
    } else {
        let before = fields(s.drop_last());
        if s.last() == ',' {
            before.push(Seq::empty())
        } else {
            before.drop_last().push(before.last().push(s.last()))
        }
    }
}

/// The digits of a number: the text itself, or what follows its `+` sign.
pub open spec fn unsigned(s: Seq<char>) -> Seq<char> {
    if s.len() > 0 && s[0] == '+' {
        s.skip(1)
    } else {
        s
    }
}

/// The word that a field writes: white space around it aside, an optional
/// `+` and one or more decimal digits that denote at most 65535.
pub open spec fn word_of_field(field: Seq<char>) -> Option<u16> {
    let digits = unsigned(trim(field));
    if digits.len() > 0 && all_digits(digits) && decimal_value(digits) <= u16::MAX {
        Some(decimal_value(digits) as u16)
    } else {
        None
    }
}

/// The words that the fields write, if each of them writes one.
pub open spec fn words_of_fields(fs: Seq<Seq<char>>) -> Option<Seq<u16>>
    decreases fs.len(),
{
    if fs.len() == 0 {
        Some(Seq::empty())
    } else {
        match (words_of_fields(fs.drop_last()), word_of_field(fs.last())) {
            (Some(words), Some(word)) => Some(words.push(word)),
            _ => None,
        }
    }
}

/// The words that a text of numbers separated by commas writes.
pub open spec fn words_of_text(s: Seq<char>) -> Option<Seq<u16>> {
    words_of_fields(fields(s))
}

/// The bytes that encode words: two for each, the low byte first.
pub open spec fn bytes_of_words(words: Seq<u16>) -> Seq<u8> {
    Seq::new(
        2 * words.len(),
        |i: int|
            if i % 2 == 0 {
                (words[i / 2] % 256) as u8
            } else {
                (words[i / 2] / 256) as u8
            },
    )
}

/// The word that `chars[from..to]` writes.
fn parse_field(chars: &Vec<char>, from: usize, to: usize) -> (r: Option<u16>)
    requires
        from <= to <= chars@.len(),
    ensures
        r == word_of_field(chars@.subrange(from as int, to as int)),
{
    let (start, end) = trim_bounds(chars, from, to);
    let ghost trimmed = chars@.subrange(start as int, end as int);
    let first: usize = if start < end && chars[start] == '+' {
        start + 1
    } else {
        start
    };
    proof {
        if start < end {
            assert(trimmed[0] == chars@[start as int]);
        }
        assert(unsigned(trimmed) =~= chars@.subrange(first as int, end as int));
    }
    match parse_decimal(chars, first, end) {
        Some(n) => if n <= 65535 {
            Some(n as u16)
        } else {
            None
        },
        None => None,
    }
}

/// Reads the numbers of a text in which commas separate them. `None` where a
/// piece between two commas, before the first or after the last is not a
/// number that fits in 16 bits.
pub fn parse(input: &str) -> (r: Option<Vec<u16>>)
    ensures
        match words_of_text(input@) {
            Some(words) => r matches Some(data) && data@ == words,
            None => r is None,
        },
{
    let chars = to_chars(input);
    let len: usize = chars.len();
    let mut data: Vec<u16> = Vec::new();
    let mut start: usize = 0;
    let mut i: usize = 0;
    let ghost mut done: Seq<Seq<char>> = Seq::empty();
    proof {
        assert(chars@.take(0) =~= Seq::<char>::empty());
        assert(seq![Seq::<char>::empty()] =~= done.push(chars@.subrange(0, 0)));
    }
    while i < len
        invariant
            start <= i <= len,
            len == chars@.len(),
            chars@ == input@,
            fields(chars@.take(i as int)) == done.push(chars@.subrange(start as int, i as int)),
            words_of_fields(done) == Some(data@),
        decreases len - i,
    {
        let ghost field = chars@.subrange(start as int, i as int);
        if chars[i] == ',' {
            let word = parse_field(&chars, start, i);
            proof {
                lemma_field_closed(chars@, i as int, done, field);
                lemma_words_of_push(done, field);
            }
            match word {
                Some(word) => {
                    data.push(word);
                },
                None => {
                    proof {
                        lemma_words_of_prefix(fields(chars@), (done.len() + 1) as int);
                    }
                    return None;
                },
            }
            proof {
                done = done.push(field);
                assert(chars@.subrange(i + 1, i + 1) =~= Seq::<char>::empty());
            }
            start = i + 1;
        } else {
            proof {
                lemma_field_grows(chars@, i as int, done, field);
                assert(field.push(chars@[i as int]) =~= chars@.subrange(start as int, i + 1));
            }
        }
        i += 1;
    }
    let ghost field = chars@.subrange(start as int, len as int);
    proof {
        assert(chars@.take(len as int) =~= chars@);
        lemma_words_of_push(done, field);
    }
    match parse_field(&chars, start, len) {
        Some(word) => {
            data.push(word);
            Some(data)
        },
        None => None,
    }
}

/// The words of fields with one more field after them.
proof fn lemma_words_of_push(done: Seq<Seq<char>>, field: Seq<char>)
    ensures
        words_of_fields(done.push(field)) == match (words_of_fields(done), word_of_field(field)) {
            (Some(words), Some(word)) => Some(words.push(word)),
            _ => None,
        },
{
    assert(done.push(field).drop_last() =~= done);
    assert(done.push(field).last() == field);
}

/// A comma ends the field before it and begins an empty one; the fields up
/// to the comma stay what they are however the text goes on.
proof fn lemma_field_closed(text: Seq<char>, i: int, done: Seq<Seq<char>>, field: Seq<char>)
    requires
        0 <= i < text.len(),
        text[i] == ',',
        fields(text.take(i)) == done.push(field),
    ensures
        fields(text.take(i + 1)) == done.push(field).push(Seq::empty()),
        fields(text).len() > done.len(),
        fields(text).take((done.len() + 1) as int) == done.push(field),
{
    let head = text.take(i + 1);
    assert(head.drop_last() =~= text.take(i));
    assert(head.last() == text[i]);
    lemma_fields_stable(head, text.skip(i + 1));
    assert(head + text.skip(i + 1) =~= text);
    assert(fields(head).drop_last() =~= done.push(field));
}

/// A character that is no comma lengthens the last field.
proof fn lemma_field_grows(text: Seq<char>, i: int, done: Seq<Seq<char>>, field: Seq<char>)
    requires
        0 <= i < text.len(),
        text[i] != ',',
        fields(text.take(i)) == done.push(field),
    ensures
        fields(text.take(i + 1)) == done.push(field.push(text[i])),
{
    let head = text.take(i + 1);
    assert(head.drop_last() =~= text.take(i));
    assert(head.last() == text[i]);
    assert(done.push(field).drop_last() =~= done);
}

/// All fields of a text but its last stay what they are when the text goes
/// on.
proof fn lemma_fields_stable(a: Seq<char>, b: Seq<char>)
    ensures
        fields(a).len() >= 1,
        fields(a + b).len() >= fields(a).len(),
        fields(a + b).take(fields(a).len() - 1) == fields(a).drop_last(),
    decreases b.len(),
{
    lemma_fields_nonempty(a);
    if b.len() == 0 {
        assert(a + b =~= a);
        assert(fields(a).take(fields(a).len() - 1) =~= fields(a).drop_last());
    } else {
        let shorter = b.drop_last();
        lemma_fields_stable(a, shorter);
        assert((a + b).drop_last() =~= a + shorter);
        assert((a + b).last() == b.last());
        let before = fields(a + shorter);
        let k = fields(a).len() - 1;
        assert(fields(a + b).take(k) =~= before.take(k));
    }
}

/// A text has at least one field.
proof fn lemma_fields_nonempty(s: Seq<char>)
    ensures
        fields(s).len() >= 1,
    decreases s.len(),
{
    if s.len() > 0 {
        lemma_fields_nonempty(s.drop_last());
    }
}

/// Where some of the first fields do not all write a word, neither do all the
/// fields.
proof fn lemma_words_of_prefix(fs: Seq<Seq<char>>, k: int)
    requires
        0 <= k <= fs.len(),
        words_of_fields(fs.take(k)) is None,
    ensures
        words_of_fields(fs) is None,
    decreases fs.len(),
{
    if k < fs.len() {
        assert(fs.drop_last().take(k) =~= fs.take(k));
        lemma_words_of_prefix(fs.drop_last(), k);
    } else {
        assert(fs.take(k) =~= fs);
    }
}

/// The bytes of a program binary that holds `data`.
pub fn convert(data: Vec<u16>) -> (buff: Vec<u8>)
    ensures
        buff@ == bytes_of_words(data@),
{
    let mut buff: Vec<u8> = Vec::new();
    let mut i: usize = 0;
    while i < data.len()
        invariant
            i <= data@.len(),
            buff@ == bytes_of_words(data@.take(i as int)),
        decreases data@.len() - i,
    {
        let d: u16 = data[i];
        buff.push((d % 256) as u8);
        buff.push((d / 256) as u8);
        i += 1;
        assert(buff@ =~= bytes_of_words(data@.take(i as int)));
    }
    assert(data@.take(i as int) =~= data@);
    buff
}

/// The words read from the bytes that encode them are those words.
pub proof fn lemma_words_round_trip(words: Seq<u16>)
    ensures
        words_of_bytes(bytes_of_words(words)) == words,
{
    assert(words_of_bytes(bytes_of_words(words)) =~= words);
}

/// Packing a text of numbers and loading what was packed gives the numbers
/// that the text writes.
pub proof fn lemma_pack_then_load(text: Seq<char>)
    requires
        words_of_text(text) is Some,
    ensures
        words_of_bytes(bytes_of_words(words_of_text(text)->0)) == words_of_text(text)->0,
{
    lemma_words_round_trip(words_of_text(text)->0);
}

} // verus!
