//! Line- and byte-stream operations shared by the simpler utilities:
//! numbering lines, taking the first or last part of a stream, reversing a
//! stream, and filling a repeated output buffer.
//!
//! Every function takes a fully decoded line sequence or a byte vector and
//! returns what the utility would emit for it; reading and writing stay
//! with the caller.

use vstd::prelude::*;

use crate::render::padded_dec;
use crate::render::padded_usize_to_string;
use crate::render::push_char;

verus! {

/// The width of the line-number column when numbering lines.
pub const NUMBER_WIDTH: usize = 6;

/// The first `k` of `lines`, each terminated, with right-aligned numbers
/// counting on from `start` and a tab between number and text.
pub open spec fn numbered_upto(lines: Seq<Seq<char>>, start: int, k: int) -> Seq<char>
    decreases k,
{
    if k <= 0 {
        Seq::empty()
    } else {
        numbered_upto(lines, start, k - 1) + padded_dec((start + k - 1) as nat, NUMBER_WIDTH as nat)
            + seq!['\t'] + lines[k - 1] + seq!['\n']
    }
}

/// The first `k` of `lines`, each terminated.
pub open spec fn joined_upto(lines: Seq<Seq<char>>, k: int) -> Seq<char>
    decreases k,
{
    if k <= 0 {
        Seq::empty()
    } else {
        joined_upto(lines, k - 1) + lines[k - 1] + seq!['\n']
    }
}

/// Renders every line with a running number, continuing and advancing the
/// caller's counter so that numbering runs on across sources.
pub fn cat_numbered(lines: &Vec<String>, line_num: &mut usize) -> (out: String)
    requires
        *old(line_num) + lines@.len() <= usize::MAX,
    ensures
        *final(line_num) == *old(line_num) + lines@.len(),
        out@ == numbered_upto(lines.deep_view(), *old(line_num) as int, lines@.len() as int),
{
    let ghost lv = lines.deep_view();
    let ghost start = *line_num as int;
    let n = lines.len();
    let mut out = String::new();
    let mut i: usize = 0;
    while i < n
        invariant
            n == lv.len(),
            lv == lines.deep_view(),
            start + n <= usize::MAX,
            0 <= i <= n,
            *line_num == start + i,
            out@ == numbered_upto(lv, start, i as int),
        decreases n - i,
    {
        let num = padded_usize_to_string(*line_num, NUMBER_WIDTH);
        out.append(num.as_str());
        push_char(&mut out, '\t');
        out.append(lines[i].as_str());
        push_char(&mut out, '\n');
        *line_num += 1;
        proof {
            assert(lv[i as int] == lines@[i as int]@);
            assert(out@ =~= numbered_upto(lv, start, i + 1));
        }
        i += 1;
    }
    out
}

/// The first `n` lines, each terminated; all of them when fewer exist.
pub fn head_lines(lines: &Vec<String>, n: usize) -> (out: String)
    ensures
        out@ == joined_upto(
            lines.deep_view(),
            if n <= lines@.len() {
                n as int
            } else {
                lines@.len() as int
            },
        ),
{
    let ghost lv = lines.deep_view();
    let take = if n <= lines.len() {
        n
    } else {
        lines.len()
    };
    let mut out = String::new();
    let mut i: usize = 0;
    while i < take
        invariant
            take <= lv.len(),
            lv == lines.deep_view(),
            0 <= i <= take,
            out@ == joined_upto(lv, i as int),
        decreases take - i,
    {
        out.append(lines[i].as_str());
        push_char(&mut out, '\n');
        proof {
            assert(lv[i as int] == lines@[i as int]@);
            assert(out@ =~= joined_upto(lv, i + 1));
        }
        i += 1;
    }
    out
}

/// The first `n` bytes; all of them when fewer exist.
pub fn head_bytes(data: &Vec<u8>, n: usize) -> (out: Vec<u8>)
    ensures
        out@ == data@.take(
            if n <= data@.len() {
                n as int
            } else {
                data@.len() as int
            },
        ),
{
    let take = if n <= data.len() {
        n
    } else {
        data.len()
    };
    let mut out: Vec<u8> = Vec::new();
    let mut i: usize = 0;
    while i < take
        invariant
            take <= data@.len(),
            0 <= i <= take,
            out@ == data@.take(i as int),
        decreases take - i,
    {
        out.push(data[i]);
        proof {
            assert(out@ =~= data@.take(i + 1));
        }
        i += 1;
    }
    out
}

/// Every line in reverse order, each terminated.
pub fn tac(lines: &Vec<String>) -> (out: String)
    ensures
        out@ == joined_upto(lines.deep_view().reverse(), lines@.len() as int),
{
    let ghost lv = lines.deep_view();
    let n = lines.len();
    let mut out = String::new();
    let mut i: usize = 0;
    while i < n
        invariant
            n == lv.len(),
            lv == lines.deep_view(),
            0 <= i <= n,
            out@ == joined_upto(lv.reverse(), i as int),
        decreases n - i,
    {
        out.append(lines[n - 1 - i].as_str());
        push_char(&mut out, '\n');
        proof {
            assert(lv[n - 1 - i as int] == lines@[n - 1 - i as int]@);
            assert(lv.reverse()[i as int] == lv[n - 1 - i as int]);
            assert(out@ =~= joined_upto(lv.reverse(), i + 1));
        }
        i += 1;
    }
    out
}

/// The last `n` lines, each terminated; all of them when fewer exist.
pub fn tail_lines_buffered(lines: &Vec<String>, n: usize) -> (out: String)
    ensures
        ({
            let len = lines@.len() as int;
            let start = if n as int <= len {
                len - n
            } else {
                0
            };
            out@ == joined_upto(lines.deep_view().skip(start), len - start)
        }),
{
    let ghost lv = lines.deep_view();
    let len = lines.len();
    let start = if n <= len {
        len - n
    } else {
        0
    };
    let mut out = String::new();
    let mut i: usize = start;
    while i < len
        invariant
            len == lv.len(),
            lv == lines.deep_view(),
            start <= i <= len,
            out@ == joined_upto(lv.skip(start as int), i - start),
        decreases len - i,
    {
        out.append(lines[i].as_str());
        push_char(&mut out, '\n');
        proof {
            assert(lv[i as int] == lines@[i as int]@);
            assert(lv.skip(start as int)[i - start] == lv[i as int]);
            assert(out@ =~= joined_upto(lv.skip(start as int), i + 1 - start));
        }
        i += 1;
    }
    out
}

/// The last `n` bytes; all of them when fewer exist.
pub fn tail_bytes_buffered(data: &Vec<u8>, n: usize) -> (out: Vec<u8>)
    ensures
        ({
            let len = data@.len() as int;
            let start = if n as int <= len {
                len - n
            } else {
                0
            };
            out@ == data@.skip(start)
        }),
{
    let len = data.len();
    let start = if n <= len {
        len - n
    } else {
        0
    };
    let mut out: Vec<u8> = Vec::new();
    let mut i: usize = start;
    while i < len
        invariant
            len == data@.len(),
            start <= i <= len,
            out@ == data@.subrange(start as int, i as int),
        decreases len - i,
    {
        out.push(data[i]);
        proof {
            assert(out@ =~= data@.subrange(start as int, i + 1));
        }
        i += 1;
    }
    proof {
        assert(out@ =~= data@.skip(start as int));
    }
    out
}

/// `line` repeated `count` times.
pub open spec fn repeated(line: Seq<u8>, count: int) -> Seq<u8>
    decreases count,
{
    if count <= 0 {
        Seq::empty()
    } else {
        repeated(line, count - 1) + line
    }
}

/// How many whole copies of a line of length `len` the output buffer holds:
/// as many as fit in its capacity, and at least one.
pub open spec fn buffered_copies(len: nat) -> int {
    if len > 8192 {
        1
    } else {
        8192int / (len as int)
    }
}

proof fn lemma_repeated_len(line: Seq<u8>, count: int)
    requires
        count >= 0,
    ensures
        repeated(line, count).len() == count * line.len(),
    decreases count,
{
    if count == 0 {
        assert(count * line.len() == 0) by (nonlinear_arith)
            requires
                count == 0,
        ;
    } else {
        lemma_repeated_len(line, count - 1);
        assert((count - 1) * line.len() + line.len() == count * line.len()) by (nonlinear_arith);
    }
}

/// Refills `buf` with whole copies of `line`: as many as fit in the fixed
/// output-buffer capacity, but at least one even when the line alone
/// exceeds it.
pub fn fill_buffer(line: &[u8], buf: &mut Vec<u8>)
    requires
        line@.len() >= 1,
    ensures
        final(buf)@ == repeated(line@, buffered_copies(line@.len())),
{
    let ghost ll = line@.len() as int;
    buf.clear();
    let mut copies: usize = 0;
    while line.len() <= 8192 && buf.len() <= 8192 - line.len()
        invariant
            ll == line@.len(),
            ll >= 1,
            0 <= copies <= 8192,
            copies * ll <= 8192,
            buf@ == repeated(line@, copies as int),
            buf@.len() == copies * ll,
        decreases 8192 - buf.len(),
    {
        let mut j: usize = 0;
        let ghost before = buf@;
        while j < line.len()
            invariant
                ll == line@.len(),
                0 <= j <= ll,
                buf@ == before + line@.take(j as int),
            decreases line.len() - j,
        {
            buf.push(line[j]);
            proof {
                assert(buf@ =~= before + line@.take(j + 1));
            }
            j += 1;
        }
        proof {
            assert(line@.take(ll) =~= line@);
            assert(buf@ =~= repeated(line@, copies + 1));
            lemma_repeated_len(line@, copies as int + 1);
            assert((copies + 1) * ll == copies * ll + ll) by (nonlinear_arith);
            assert(copies + 1 <= 8192) by (nonlinear_arith)
                requires
                    (copies as int + 1) * ll <= 8192,
                    ll >= 1,
                    copies >= 0,
            ;
        }
        copies += 1;
    }
    if buf.len() == 0 {
        let mut j: usize = 0;
        let ghost before = buf@;
        while j < line.len()
            invariant
                ll == line@.len(),
                0 <= j <= ll,
                buf@ == before + line@.take(j as int),
            decreases line.len() - j,
        {
            buf.push(line[j]);
            proof {
                assert(buf@ =~= before + line@.take(j + 1));
            }
            j += 1;
        }
        proof {
            assert(line@.take(ll) =~= line@);
            assert(copies == 0) by (nonlinear_arith)
                requires
                    before.len() == copies * ll,
                    before.len() == 0,
                    ll >= 1,
                    copies >= 0,
            ;
            assert(buf@ =~= repeated(line@, 1));
            assert(ll > 8192);
            assert(buf@ =~= repeated(line@, buffered_copies(line@.len())));
        }
    } else {
        proof {
            assert(copies >= 1) by (nonlinear_arith)
                requires
                    buf@.len() == copies * ll,
                    buf@.len() > 0,
                    ll >= 1,
                    copies >= 0,
            ;
            assert(ll <= 8192) by (nonlinear_arith)
                requires
                    copies >= 1,
                    copies * ll <= 8192,
                    ll >= 1,
            ;
            assert(8192 < copies * ll + ll);
            assert(copies as int == 8192int / ll) by (nonlinear_arith)
                requires
                    ll >= 1,
                    copies * ll <= 8192,
                    8192 < copies * ll + ll,
            ;
        }
    }
}

/// The banner printed before each file when several are given: a blank
/// line between files, then the decorated name.
pub open spec fn header_of(path: Seq<char>, first: bool) -> Seq<char> {
    (if first {
        Seq::empty()
    } else {
        seq!['\n']
    }) + seq!['=', '=', '>', ' '] + path + seq![' ', '<', '=', '=', '\n']
}

/// Renders the banner before one of several files.
pub fn file_header(path: &str, first: bool) -> (out: String)
    ensures
        out@ == header_of(path@, first),
{
    let mut out = String::new();
    if !first {
        push_char(&mut out, '\n');
    }
    push_char(&mut out, '=');
    push_char(&mut out, '=');
    push_char(&mut out, '>');
    push_char(&mut out, ' ');
    out.append(path);
    push_char(&mut out, ' ');
    push_char(&mut out, '<');
    push_char(&mut out, '=');
    push_char(&mut out, '=');
    push_char(&mut out, '\n');
    proof {
        assert(out@ =~= header_of(path@, first));
    }
    out
}

} // verus!
