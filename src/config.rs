use vstd::prelude::*;
use vstd::string::StringSliceAdditionalSpecFns;
use vstd::utf8::{
    decode_utf8, encode_utf8, encode_utf8_decode_utf8, encode_utf8_valid_utf8, is_char_boundary,
    is_char_boundary_start_end_of_seq,
};

verus! {

/// The search column that means "no filter": it is past every identity
/// column of every view.
pub const NO_FILTER: usize = 999;

/// The most bytes of a search word that are kept.
pub const MAX_WORD_BYTES: usize = 64;

/// The active sort column; the direction follows from the column.
#[derive(Debug, Clone, Copy, PartialEq, Eq)]
pub struct SortConfig {
    pub column: usize,
}

impl SortConfig {
    pub fn new(column: usize) -> (r: Self)
        ensures
            r.column == column,
    {
        Self { column }
    }
}

/// The largest character boundary of `b` that is at most `k`.
pub open spec fn boundary_at_most(b: Seq<u8>, k: int) -> int
    decreases k,
{
    if k <= 0 || is_char_boundary(b, k) {
        k
    } else {
        boundary_at_most(b, k - 1)
    }
}

/// `w` cut to its longest prefix of whole characters that takes at most
/// `MAX_WORD_BYTES` bytes in UTF-8.
pub open spec fn capped_word(w: Seq<char>) -> Seq<char> {
    let b = encode_utf8(w);
    let limit = if b.len() < MAX_WORD_BYTES {
        b.len() as int
    } else {
        MAX_WORD_BYTES as int
    };
    decode_utf8(b.subrange(0, boundary_at_most(b, limit)))
}

/// A word that fits in `MAX_WORD_BYTES` bytes is kept whole.
pub proof fn lemma_short_word_kept(w: Seq<char>)
    requires
        encode_utf8(w).len() <= MAX_WORD_BYTES,
    ensures
        capped_word(w) == w,
{
    let b = encode_utf8(w);
    encode_utf8_valid_utf8(w);
    is_char_boundary_start_end_of_seq(b);
    assert(b.subrange(0, b.len() as int) =~= b);
    encode_utf8_decode_utf8(w);
}

/// Cuts `word` as `capped_word` says.
fn cap_word(word: &str) -> (r: String)
    ensures
        r@ == capped_word(word@),
{
    let ghost b = encode_utf8(word@);
    proof {
        encode_utf8_valid_utf8(word@);
        is_char_boundary_start_end_of_seq(b);
    }
    let n = word.as_bytes().len();
    let start = if n < MAX_WORD_BYTES {
        n
    } else {
        MAX_WORD_BYTES
    };
    let mut end = start;
    while !word.is_char_boundary(end)
        invariant
            b == encode_utf8(word@),
            word.spec_bytes() == b,
            vstd::utf8::valid_utf8(b),
            is_char_boundary(b, 0),
            0 <= end <= start <= b.len(),
            n == b.len(),
            start == if n < MAX_WORD_BYTES {
                n
            } else {
                MAX_WORD_BYTES
            },
            boundary_at_most(b, end as int) == boundary_at_most(b, start as int),
        decreases end,
    {
        end = end - 1;
    }
    assert(boundary_at_most(b, end as int) == end as int);
    let (head, _) = word.split_at(end);
    proof {
        encode_utf8_decode_utf8(head@);
        vstd::utf8::valid_utf8_split(b, end as int);
        assert(head.spec_bytes() == b.subrange(0, end as int));
    }
    head.to_owned()
}

/// The active filter: a column and the word its text must equal.
#[derive(Debug, Clone, PartialEq, Eq)]
pub struct SearchConfig {
    pub column: usize,
    pub word: String,
}

impl SearchConfig {
    /// A filter on `column`; `word` is cut to `MAX_WORD_BYTES` bytes at a
    /// character boundary.
    pub fn new(column: usize, word: &str) -> (r: Self)
        ensures
            r.column == column,
            r.word@ == capped_word(word@),
    {
        Self { column, word: cap_word(word) }
    }

    pub fn get_word(&self) -> (r: &str)
        ensures
            r@ == self.word@,
    {
        self.word.as_str()
    }

    /// Replaces the word, cut to `MAX_WORD_BYTES` bytes at a character
    /// boundary.
    pub fn set_word(&mut self, new_word: &str)
        ensures
            final(self).column == old(self).column,
            final(self).word@ == capped_word(new_word@),
    {
        self.word = cap_word(new_word);
    }
}

} // verus!
