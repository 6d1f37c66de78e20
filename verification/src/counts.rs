//! Counting lines, words, bytes and characters in a byte stream, and
//! formatting the counts into aligned columns.
//!
//! A line is a newline byte; a word starts at any non-blank byte that
//! follows the start of input or a blank; the character count is that of
//! the stream decoded as UTF-8 with replacement.

use vstd::prelude::*;

use crate::render::padded_dec;
use crate::render::padded_usize_to_string;
use crate::render::push_char;

verus! {

/// Which counts an invocation reports.
pub struct Flags {
    /// Report the line count.
    pub lines: bool,
    /// Report the word count.
    pub words: bool,
    /// Report the byte count.
    pub bytes: bool,
    /// Report the character count.
    pub chars: bool,
}

/// The four counts of one stream.
pub struct Counts {
    /// Newline bytes seen.
    pub lines: usize,
    /// Maximal runs of non-blank bytes seen.
    pub words: usize,
    /// Bytes seen.
    pub bytes: usize,
    /// Characters of the stream decoded as UTF-8 with replacement.
    pub chars: usize,
}

impl Default for Flags {
    /// No count selected yet.
    fn default() -> (f: Flags)
        ensures
            f == (Flags { lines: false, words: false, bytes: false, chars: false }),
    {
        Flags { lines: false, words: false, bytes: false, chars: false }
    }
}

impl Default for Counts {
    /// All four counts zero.
    fn default() -> (c: Counts)
        ensures
            c == (Counts { lines: 0usize, words: 0usize, bytes: 0usize, chars: 0usize }),
    {
        Counts { lines: 0, words: 0, bytes: 0, chars: 0 }
    }
}

impl Flags {
    /// Whether any count was selected.
    pub open spec fn spec_any_set(self) -> bool {
        self.lines || self.words || self.bytes || self.chars
    }

    /// Whether any count was selected.
    pub fn any_set(&self) -> (b: bool)
        ensures
            b == self.spec_any_set(),
    {
        self.lines || self.words || self.bytes || self.chars
    }

    /// The flags an invocation runs with: as given when any was selected,
    /// else the conventional lines, words and bytes.
    pub fn default_mode(&self) -> (f: Flags)
        ensures
            self.spec_any_set() ==> f == *self,
            !self.spec_any_set() ==> f == (Flags {
                lines: true,
                words: true,
                bytes: true,
                chars: false,
            }),
    {
        if self.any_set() {
            Flags { lines: self.lines, words: self.words, bytes: self.bytes, chars: self.chars }
        } else {
            Flags { lines: true, words: true, bytes: true, chars: false }
        }
    }
}

/// Whether a byte is blank for word counting.
pub open spec fn is_blank(b: u8) -> bool {
    b == 32 || b == 9 || b == 10 || b == 13
}

/// How many newline bytes the first `k` bytes hold.
pub open spec fn lines_upto(data: Seq<u8>, k: int) -> nat
    decreases k,
{
    if k <= 0 {
        0
    } else {
        lines_upto(data, k - 1) + if data[k - 1] == 10 {
            1nat
        } else {
            0nat
        }
    }
}

/// Whether a word starts at position `i`: a non-blank byte at the start of
/// input or right after a blank.
pub open spec fn word_starts_at(data: Seq<u8>, i: int) -> bool {
    !is_blank(data[i]) && (i == 0 || is_blank(data[i - 1]))
}

/// How many words start within the first `k` bytes.
pub open spec fn words_upto(data: Seq<u8>, k: int) -> nat
    decreases k,
{
    if k <= 0 {
        0
    } else {
        words_upto(data, k - 1) + if word_starts_at(data, k - 1) {
            1nat
        } else {
            0nat
        }
    }
}

/// The characters of `data` decoded as UTF-8, with invalid sequences
/// replaced; a pure function of the bytes.
pub uninterp spec fn lossy_chars(data: Seq<u8>) -> Seq<char>;

/// Relies on `String::from_utf8_lossy`: the decoded text depends on the
/// bytes alone.
#[verifier::external_body]
fn utf8_lossy_char_count(data: &Vec<u8>) -> (n: usize)
    ensures
        n == lossy_chars(data@).len(),
{
    String::from_utf8_lossy(data).chars().count()
}

/// Counts the lines, words, bytes and characters of one stream.
pub fn count(data: &Vec<u8>) -> (c: Counts)
    ensures
        c.bytes == data@.len(),
        c.lines == lines_upto(data@, data@.len() as int),
        c.words == words_upto(data@, data@.len() as int),
        c.chars == lossy_chars(data@).len(),
{
    let n = data.len();
    let mut lines: usize = 0;
    let mut words: usize = 0;
    let mut in_word = false;
    let mut i: usize = 0;
    while i < n
        invariant
            n == data@.len(),
            0 <= i <= n,
            lines <= i,
            words <= i,
            lines == lines_upto(data@, i as int),
            words == words_upto(data@, i as int),
            in_word == (i > 0 && !is_blank(data@[i - 1])),
        decreases n - i,
    {
        let b = data[i];
        if b == 10 {
            lines += 1;
        }
        let blank = b == 32 || b == 9 || b == 10 || b == 13;
        if !blank && !in_word {
            words += 1;
        }
        in_word = !blank;
        i += 1;
    }
    let chars = utf8_lossy_char_count(data);
    Counts { lines, words, bytes: n, chars }
}

/// The columns `format_counts` prints: one right-aligned number for each
/// selected count, in the fixed order lines, words, bytes, characters.
pub open spec fn columns(c: Counts, flags: Flags, width: nat) -> Seq<Seq<char>> {
    (if flags.lines {
        seq![padded_dec(c.lines as nat, width)]
    } else {
        Seq::empty()
    }) + (if flags.words {
        seq![padded_dec(c.words as nat, width)]
    } else {
        Seq::empty()
    }) + (if flags.bytes {
        seq![padded_dec(c.bytes as nat, width)]
    } else {
        Seq::empty()
    }) + (if flags.chars {
        seq![padded_dec(c.chars as nat, width)]
    } else {
        Seq::empty()
    })
}

/// The first `k` columns joined with single spaces.
pub open spec fn joined_columns(cols: Seq<Seq<char>>, k: int) -> Seq<char>
    decreases k,
{
    if k <= 0 {
        Seq::empty()
    } else if k == 1 {
        cols[0]
    } else {
        joined_columns(cols, k - 1) + seq![' '] + cols[k - 1]
    }
}

/// Renders the selected counts, each right-aligned to `width`, separated
/// by single spaces.
pub fn format_counts(c: &Counts, flags: &Flags, width: usize) -> (out: String)
    ensures
        out@ == joined_columns(
            columns(*c, *flags, width as nat),
            columns(*c, *flags, width as nat).len() as int,
        ),
{
    let ghost cols = columns(*c, *flags, width as nat);
    let mut out = String::new();
    let mut emitted: usize = 0;
    if flags.lines {
        let part = padded_usize_to_string(c.lines, width);
        out.append(part.as_str());
        emitted += 1;
        proof {
            assert(out@ =~= joined_columns(cols, emitted as int));
        }
    }
    if flags.words {
        if emitted > 0 {
            push_char(&mut out, ' ');
        }
        let part = padded_usize_to_string(c.words, width);
        out.append(part.as_str());
        emitted += 1;
        proof {
            assert(out@ =~= joined_columns(cols, emitted as int));
        }
    }
    if flags.bytes {
        if emitted > 0 {
            push_char(&mut out, ' ');
        }
        let part = padded_usize_to_string(c.bytes, width);
        out.append(part.as_str());
        emitted += 1;
        proof {
            assert(out@ =~= joined_columns(cols, emitted as int));
        }
    }
    if flags.chars {
        if emitted > 0 {
            push_char(&mut out, ' ');
        }
        let part = padded_usize_to_string(c.chars, width);
        out.append(part.as_str());
        emitted += 1;
        proof {
            assert(out@ =~= joined_columns(cols, emitted as int));
        }
    }
    proof {
        assert(emitted == cols.len());
        assert(out@ =~= joined_columns(cols, cols.len() as int));
    }
    out
}

/// The largest of the four counts: the column width a report of them
/// needs.
pub fn max_count(c: &Counts) -> (m: usize)
    ensures
        c.lines <= m && c.words <= m && c.bytes <= m && c.chars <= m,
        m == c.lines || m == c.words || m == c.bytes || m == c.chars,
{
    let mut m = c.lines;
    if c.words > m {
        m = c.words;
    }
    if c.bytes > m {
        m = c.bytes;
    }
    if c.chars > m {
        m = c.chars;
    }
    m
}

/// Folds one stream's counts into a running total.
pub fn add_counts(total: &mut Counts, c: &Counts)
    requires
        old(total).lines + c.lines <= usize::MAX,
        old(total).words + c.words <= usize::MAX,
        old(total).bytes + c.bytes <= usize::MAX,
        old(total).chars + c.chars <= usize::MAX,
    ensures
        final(total).lines == old(total).lines + c.lines,
        final(total).words == old(total).words + c.words,
        final(total).bytes == old(total).bytes + c.bytes,
        final(total).chars == old(total).chars + c.chars,
{
    total.lines += c.lines;
    total.words += c.words;
    total.bytes += c.bytes;
    total.chars += c.chars;
}

} // verus!
