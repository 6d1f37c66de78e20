//! Rendering numbers and padding into text.
//!
//! The search engine, the line numberer and the count formatter all print
//! decimal numbers, sometimes right-aligned in a fixed-width column.  The
//! spec functions here say character by character what those fragments look
//! like, and the executable functions produce exactly them.

use vstd::prelude::*;

verus! {

/// The character for a single decimal digit.
pub open spec fn digit_char(d: nat) -> char {
    ((d + 48) as char)
}

/// Decimal digits of `n`, most significant first, with no sign and no
/// leading zeros (a lone zero for `n == 0`).
pub open spec fn dec_digits(n: nat) -> Seq<char>
    decreases n,
{
    if n < 10 {
        seq![digit_char(n)]
    } else {
        dec_digits(n / 10) + seq![digit_char(n % 10)]
    }
}

/// A run of `n` spaces.
pub open spec fn spaces(n: nat) -> Seq<char>
    decreases n,
{
    if n == 0 {
        Seq::empty()
    } else {
        spaces((n - 1) as nat) + seq![' ']
    }
}

/// `n` in decimal, right-aligned with spaces to at least `width` characters.
pub open spec fn padded_dec(n: nat, width: nat) -> Seq<char> {
    if dec_digits(n).len() < width {
        spaces((width - dec_digits(n).len()) as nat) + dec_digits(n)
    } else {
        dec_digits(n)
    }
}

/// Relies on `String::push`: appends exactly the given character.
#[verifier::external_body]
pub(crate) fn push_char(s: &mut String, c: char)
    ensures
        final(s)@ == old(s)@ + seq![c],
{
    s.push(c);
}

fn digit_to_char(d: u8) -> (c: char)
    requires
        d < 10,
    ensures
        c == digit_char(d as nat),
{
    (d + 48) as char
}

/// Renders `n` in decimal.
pub fn usize_to_string(n: usize) -> (s: String)
    ensures
        s@ == dec_digits(n as nat),
    decreases n,
{
    if n < 10 {
        let mut s = String::new();
        push_char(&mut s, digit_to_char(n as u8));
        proof {
            assert(s@ =~= dec_digits(n as nat));
        }
        s
    } else {
        let mut s = usize_to_string(n / 10);
        push_char(&mut s, digit_to_char((n % 10) as u8));
        proof {
            assert(s@ =~= dec_digits(n as nat));
        }
        s
    }
}

/// Renders `n` in decimal, right-aligned with spaces to at least `width`
/// characters.
pub fn padded_usize_to_string(n: usize, width: usize) -> (s: String)
    ensures
        s@ == padded_dec(n as nat, width as nat),
{
    let digits = usize_to_string(n);
    let dlen = digits.as_str().unicode_len();
    let mut s = String::new();
    let mut i = dlen;
    while i < width
        invariant
            dlen <= i,
            dlen < width ==> i <= width,
            width <= dlen ==> i == dlen,
            s@ == spaces((i - dlen) as nat),
        decreases width - i,
    {
        push_char(&mut s, ' ');
        i += 1;
    }
    s.append(digits.as_str());
    proof {
        assert(digits@.len() == dec_digits(n as nat).len());
        if dlen < width {
            assert(i == width);
            assert(s@ == spaces((width - dlen) as nat) + dec_digits(n as nat));
            assert(s@ =~= padded_dec(n as nat, width as nat));
        } else {
            assert(s@ == spaces(0) + dec_digits(n as nat));
            assert(s@ =~= padded_dec(n as nat, width as nat));
        }
    }
    s
}

/// A decimal rendering is never empty.
pub proof fn lemma_dec_digits_len(n: nat)
    ensures
        dec_digits(n).len() >= 1,
    decreases n,
{
    if n >= 10 {
        lemma_dec_digits_len(n / 10);
    }
}

/// How many characters `n` takes in decimal: the width of the column that
/// can hold it.
pub fn decimal_width(n: usize) -> (w: usize)
    ensures
        w == dec_digits(n as nat).len(),
        w >= 1,
{
    let s = usize_to_string(n);
    let w = s.as_str().unicode_len();
    proof {
        lemma_dec_digits_len(n as nat);
    }
    w
}

} // verus!
