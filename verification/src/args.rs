//! Rewriting the historical count shorthand in argument lists: an operand
//! like a dash followed only by digits becomes a count option and its
//! value, so an ordinary option parser can take it from there.

use vstd::prelude::*;

use crate::render::push_char;

verus! {

/// Whether `c` is a decimal digit.
pub open spec fn is_digit_char(c: char) -> bool {
    '0' <= c && c <= '9'
}

/// Whether an operand is the count shorthand: a dash followed by one or
/// more digits and nothing else.
pub open spec fn is_count_shorthand(s: Seq<char>) -> bool {
    s.len() >= 2 && s[0] == '-' && (forall|i: int| 1 <= i < s.len() ==> is_digit_char(#[trigger] s[i]))
}

/// The first `k` arguments with every count shorthand split into the count
/// option and its digits.
pub open spec fn expanded_upto(args: Seq<Seq<char>>, k: int) -> Seq<Seq<char>>
    decreases k,
{
    if k <= 0 {
        Seq::empty()
    } else {
        expanded_upto(args, k - 1) + (if is_count_shorthand(args[k - 1]) {
            seq![seq!['-', 'n'], args[k - 1].skip(1)]
        } else {
            seq![args[k - 1]]
        })
    }
}

fn is_dash_digits(s: &String) -> (b: bool)
    ensures
        b == is_count_shorthand(s@),
{
    if !s.is_ascii() {
        proof {
            if is_count_shorthand(s@) {
                assert forall|i: int| 0 <= i < s@.len() implies '\0' <= #[trigger] s@[i]
                    <= '\u{7f}' by {
                    if i >= 1 {
                        assert(is_digit_char(s@[i]));
                    }
                }
            }
        }
        return false;
    }
    let len = s.as_str().unicode_len();
    if len < 2 {
        return false;
    }
    let first = s.as_str().get_ascii(0);
    proof {
        assert('\0' <= s@[0] <= '\u{7f}');
        assert(first == 45 <==> s@[0] == '-');
    }
    if first != 45 {
        return false;
    }
    let mut i: usize = 1;
    while i < len
        invariant
            s.is_ascii(),
            len == s@.len(),
            2 <= len,
            1 <= i <= len,
            s@[0] == '-',
            forall|j: int| 1 <= j < i ==> is_digit_char(#[trigger] s@[j]),
        decreases len - i,
    {
        let b = s.as_str().get_ascii(i);
        proof {
            assert('\0' <= s@[i as int] <= '\u{7f}');
            assert(48 <= b <= 57 <==> is_digit_char(s@[i as int]));
        }
        if b < 48 || b > 57 {
            return false;
        }
        i += 1;
    }
    true
}

/// Splits every count-shorthand operand into the count option and its
/// digits, leaving the other arguments as they are, in order.
pub fn expand_dash_n(args: Vec<String>) -> (out: Vec<String>)
    ensures
        out.deep_view() == expanded_upto(args.deep_view(), args@.len() as int),
{
    let ghost av = args.deep_view();
    let n = args.len();
    let mut out: Vec<String> = Vec::new();
    let mut i: usize = 0;
    while i < n
        invariant
            n == av.len(),
            av == args.deep_view(),
            0 <= i <= n,
            out.deep_view() == expanded_upto(av, i as int),
        decreases n - i,
    {
        proof {
            assert(av[i as int] == args@[i as int]@);
        }
        if is_dash_digits(&args[i]) {
            let mut opt = String::new();
            push_char(&mut opt, '-');
            push_char(&mut opt, 'n');
            proof {
                assert(opt@ =~= seq!['-', 'n']);
            }
            out.push(opt);
            let len = args[i].as_str().unicode_len();
            let digits = args[i].as_str().substring_ascii(1, len);
            out.push(digits.to_owned());
            proof {
                assert(out.deep_view() =~= expanded_upto(av, i + 1));
            }
        } else {
            out.push(args[i].clone());
            proof {
                assert(out.deep_view() =~= expanded_upto(av, i + 1));
            }
        }
        i += 1;
    }
    out
}

} // verus!
