//! A program image: the words of a binary and the path it came from.

use vstd::prelude::*;

verus! {

/// A loaded program. `data` holds its words in address order; `path` is kept
/// for display only.
pub struct Program {
    pub data: Vec<u16>,
    pub path: String,
}

/// The word that two bytes encode, low byte first.
pub open spec fn word_of(low: u8, high: u8) -> u16 {
    (low as int + 256 * high as int) as u16
}

/// The words that a byte stream encodes: consecutive pairs, low byte first.
/// A single byte left at the end is taken as the low byte of a last word
/// whose high byte is zero.
pub open spec fn words_of_bytes(bytes: Seq<u8>) -> Seq<u16> {
    Seq::new(
        ((bytes.len() + 1) / 2) as nat,
        |i: int|
            word_of(
                bytes[2 * i],
                if 2 * i + 1 < bytes.len() {
                    bytes[2 * i + 1]
                } else {
                    0u8
                },
            ),
    )
}

impl Program {
    /// The empty program, with no path.
    pub fn new() -> (p: Program)
        ensures
            p.data@ == Seq::<u16>::empty(),
            p.path@ == Seq::<char>::empty(),
    {
        Program { data: Vec::new(), path: String::new() }
    }

    /// Builds the program that the bytes of a binary file encode. `path` names
    /// the file the bytes were read from.
    pub fn parse_file(path: &str, contents: &[u8]) -> (p: Program)
        ensures
            p.data@ == words_of_bytes(contents@),
            p.path@ == path@,
    {
        let mut data: Vec<u16> = Vec::new();
        let n: usize = contents.len();
        let pairs: usize = n / 2;
        let mut k: usize = 0;
        while k < pairs
            invariant
                n == contents@.len(),
                pairs == n / 2,
                k <= pairs,
                data@.len() == k,
                forall|j: int| 0 <= j < k ==> data@[j] == words_of_bytes(contents@)[j],
            decreases pairs - k,
        {
            let low: u8 = contents[2 * k];
            let high: u8 = contents[2 * k + 1];
            data.push(low as u16 + 256 * (high as u16));
            k += 1;
        }
        if n % 2 == 1 {
            data.push(contents[n - 1] as u16);
        }
        assert(data@ =~= words_of_bytes(contents@));
        Program { data, path: path.to_owned() }
    }
}

impl Clone for Program {
    fn clone(&self) -> (p: Program)
        ensures
            p.data@ == self.data@,
            p.path@ == self.path@,
    {
        let mut data: Vec<u16> = Vec::new();
        let mut i: usize = 0;
        while i < self.data.len()
            invariant
                i <= self.data@.len(),
                data@ == self.data@.take(i as int),
            decreases self.data@.len() - i,
        {
            data.push(self.data[i]);
            i += 1;
            assert(data@ =~= self.data@.take(i as int));
        }
        assert(data@ =~= self.data@);
        Program { data, path: self.path.clone() }
    }
}

} // verus!
