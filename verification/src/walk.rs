//! Planning the recursive expansion of directory operands.
//!
//! The caller lists a directory (names, kinds, and a sampled content prefix
//! for regular files) and receives back, in filename-sorted order, which
//! entries to search and which subdirectories to enter.  Hidden entries —
//! those whose name starts with a dot — are never planned, and a regular
//! file is planned only when its sampled bytes hold no NUL, the sign of a
//! binary file.  The caller performs the actual reads and recursion,
//! consulting the plan one directory at a time.

use vstd::prelude::*;

verus! {

broadcast use vstd::seq_lib::group_to_multiset_ensures;

/// How many leading bytes of a file the binary sniff examines.
pub const SAMPLE_LEN: usize = 8192;

/// One directory entry as the caller lists it: its bare name, whether it
/// is itself a directory, and for a regular file the sampled leading bytes
/// of its content (empty when the file could not be read).
pub struct DirEntry {
    /// The entry's name within its directory, without any path.
    pub name: String,
    /// Whether the entry is a directory.
    pub is_dir: bool,
    /// For a regular file, up to [`SAMPLE_LEN`] leading content bytes.
    pub sample: Vec<u8>,
}

/// One planned action: search a regular file, or descend into a
/// subdirectory.
#[derive(Debug)]
pub enum PlanStep {
    /// Search the regular file of this name.
    SearchFile(String),
    /// Descend into the subdirectory of this name.
    EnterDir(String),
}

/// What a non-directory operand, a directory operand under recursion, and
/// a directory operand without recursion come to.
#[derive(Debug, PartialEq, Eq, Structural)]
pub enum InputDisposition {
    /// Search the operand itself.
    Search,
    /// Expand the operand's directory tree.
    Expand,
    /// Warn that the operand is a directory, and skip it.
    SkipDirectory,
}

/// Whether a name marks its entry hidden: a leading dot.
pub open spec fn hidden(name: Seq<char>) -> bool {
    name.len() > 0 && name[0] == '.'
}

/// Whether sampled content bytes hold a NUL, the sign of a binary file.
pub open spec fn has_nul(sample: Seq<u8>) -> bool {
    exists|i: int| 0 <= i < sample.len() && sample[i] == 0
}

/// The binary verdict over an optional sample: an unreadable file is
/// treated as text, favouring inclusion when sniffing fails.
pub open spec fn binary_verdict(sample: Option<Vec<u8>>) -> bool {
    match sample {
        Some(s) => has_nul(s@),
        None => false,
    }
}

/// Whether traversal keeps an entry: never a hidden one, and a regular
/// file only when its sample shows no NUL.
pub open spec fn keeps(e: DirEntry) -> bool {
    !hidden(e.name@) && (e.is_dir || !has_nul(e.sample@))
}

/// The step a kept entry becomes.
pub open spec fn step_of(e: DirEntry) -> PlanStep {
    if e.is_dir {
        PlanStep::EnterDir(e.name)
    } else {
        PlanStep::SearchFile(e.name)
    }
}

/// The name a step carries.
pub open spec fn step_name(s: PlanStep) -> Seq<char> {
    match s {
        PlanStep::SearchFile(n) => n@,
        PlanStep::EnterDir(n) => n@,
    }
}

/// Lexicographic order on names, by code point, shorter prefixes first.
pub open spec fn lex_leq(a: Seq<char>, b: Seq<char>) -> bool
    decreases a.len(),
{
    if a.len() == 0 {
        true
    } else if b.len() == 0 {
        false
    } else if a[0] == b[0] {
        lex_leq(a.drop_first(), b.drop_first())
    } else {
        a[0] < b[0]
    }
}

/// Order on entries: by name.
pub open spec fn entry_leq(a: DirEntry, b: DirEntry) -> bool {
    lex_leq(a.name@, b.name@)
}

/// Whether a run of entries is in filename-sorted order.
pub open spec fn entries_sorted(s: Seq<DirEntry>) -> bool {
    forall|i: int, j: int| 0 <= i < j < s.len() ==> entry_leq(#[trigger] s[i], #[trigger] s[j])
}

/// The order is total: one of any two names comes first.
proof fn lemma_lex_total(a: Seq<char>, b: Seq<char>)
    ensures
        lex_leq(a, b) || lex_leq(b, a),
    decreases a.len(),
{
    if a.len() > 0 && b.len() > 0 && a[0] == b[0] {
        lemma_lex_total(a.drop_first(), b.drop_first());
    }
}

/// The order is transitive.
proof fn lemma_lex_trans(a: Seq<char>, b: Seq<char>, c: Seq<char>)
    requires
        lex_leq(a, b),
        lex_leq(b, c),
    ensures
        lex_leq(a, c),
    decreases a.len(),
{
    if a.len() > 0 && b.len() > 0 && c.len() > 0 && a[0] == b[0] && b[0] == c[0] {
        lemma_lex_trans(a.drop_first(), b.drop_first(), c.drop_first());
    }
}

/// Equal prefixes do not decide the order: it is settled past them.
proof fn lemma_lex_skip(a: Seq<char>, b: Seq<char>, i: int)
    requires
        0 <= i <= a.len(),
        i <= b.len(),
        forall|j: int| 0 <= j < i ==> a[j] == b[j],
    ensures
        lex_leq(a, b) == lex_leq(a.skip(i), b.skip(i)),
    decreases i,
{
    if i > 0 {
        assert(a.len() > 0 && b.len() > 0 && a[0] == b[0]);
        assert(forall|j: int|
            0 <= j < i - 1 ==> a.drop_first()[j] == b.drop_first()[j]);
        lemma_lex_skip(a.drop_first(), b.drop_first(), i - 1);
        assert(a.drop_first().skip(i - 1) =~= a.skip(i));
        assert(b.drop_first().skip(i - 1) =~= b.skip(i));
    } else {
        assert(a.skip(0) =~= a);
        assert(b.skip(0) =~= b);
    }
}

/// Compares two names in the traversal order.
fn name_leq(a: &str, b: &str) -> (r: bool)
    ensures
        r == lex_leq(a@, b@),
{
    let la = a.unicode_len();
    let lb = b.unicode_len();
    let mut i: usize = 0;
    while i < la && i < lb
        invariant
            la == a@.len(),
            lb == b@.len(),
            0 <= i <= la,
            i <= lb,
            forall|j: int| 0 <= j < i ==> a@[j] == b@[j],
        decreases la - i,
    {
        let ca = a.get_char(i);
        let cb = b.get_char(i);
        if ca != cb {
            proof {
                lemma_lex_skip(a@, b@, i as int);
                assert(a@.skip(i as int)[0] == a@[i as int]);
                assert(b@.skip(i as int)[0] == b@[i as int]);
            }
            return (ca as u32) < (cb as u32);
        }
        i += 1;
    }
    proof {
        lemma_lex_skip(a@, b@, i as int);
    }
    la <= lb
}

/// Sorts entries by name.
///
/// The result holds exactly the given entries, in filename-sorted order.
pub fn sort_entries(entries: Vec<DirEntry>) -> (out: Vec<DirEntry>)
    ensures
        out@.to_multiset() == entries@.to_multiset(),
        entries_sorted(out@),
{
    let mut rest = entries;
    let ghost whole = rest@;
    let mut out: Vec<DirEntry> = Vec::new();
    while rest.len() > 0
        invariant
            out@.to_multiset().add(rest@.to_multiset()) =~= whole.to_multiset(),
            entries_sorted(out@),
            forall|x: int, y: int|
                0 <= x < out@.len() && 0 <= y < rest@.len() ==> entry_leq(
                    #[trigger] out@[x],
                    #[trigger] rest@[y],
                ),
        decreases rest.len(),
    {
        let mut m: usize = 0;
        let mut j: usize = 1;
        proof {
            lemma_lex_total(rest@[0].name@, rest@[0].name@);
        }
        while j < rest.len()
            invariant
                rest@.len() > 0,
                0 <= m < j <= rest@.len(),
                forall|k: int| 0 <= k < j ==> entry_leq(rest@[m as int], #[trigger] rest@[k]),
            decreases rest@.len() - j,
        {
            if name_leq(rest[j].name.as_str(), rest[m].name.as_str()) {
                proof {
                    assert forall|k: int| 0 <= k < j + 1 implies entry_leq(
                        rest@[j as int],
                        #[trigger] rest@[k],
                    ) by {
                        if k < j {
                            lemma_lex_trans(rest@[j as int].name@, rest@[m as int].name@, rest@[k].name@);
                        } else {
                            lemma_lex_total(rest@[j as int].name@, rest@[j as int].name@);
                        }
                    }
                }
                m = j;
            } else {
                proof {
                    lemma_lex_total(rest@[m as int].name@, rest@[j as int].name@);
                }
            }
            j += 1;
        }
        let ghost rest0 = rest@;
        let e = rest.remove(m);
        let ghost out0 = out@;
        out.push(e);
        proof {
            assert(e == rest0[m as int]);
            assert(rest0.contains(e)) by {
                assert(rest0[m as int] == e);
            }
            assert(rest0.to_multiset().count(e) > 0);
            assert(out@.to_multiset() =~= out0.to_multiset().insert(e));
            assert(rest@.to_multiset() =~= rest0.to_multiset().remove(e));
            assert(out@.to_multiset().add(rest@.to_multiset()) =~= whole.to_multiset());
            assert forall|x: int, y: int|
                0 <= x < out@.len() && 0 <= y < rest@.len() implies entry_leq(
                #[trigger] out@[x],
                #[trigger] rest@[y],
            ) by {
                let oy = if y < m {
                    y
                } else {
                    y + 1
                };
                assert(rest@[y] == rest0[oy]);
                if x < out0.len() {
                    assert(out@[x] == out0[x]);
                } else {
                    assert(out@[x] == e);
                }
            }
            assert forall|i1: int, i2: int| 0 <= i1 < i2 < out@.len() implies entry_leq(
                #[trigger] out@[i1],
                #[trigger] out@[i2],
            ) by {
                if i2 < out0.len() {
                    assert(out@[i1] == out0[i1] && out@[i2] == out0[i2]);
                } else {
                    assert(out@[i2] == e && out@[i1] == out0[i1]);
                    assert(entry_leq(out0[i1], rest0[m as int]));
                }
            }
        }
    }
    proof {
        assert(rest@.to_multiset().len() == 0);
        assert(out@.to_multiset().add(rest@.to_multiset()) =~= out@.to_multiset());
    }
    out
}

/// The plan the first `k` entries of a listing produce: the kept ones, in
/// order, each as its step.
pub open spec fn plan_upto(entries: Seq<DirEntry>, k: int) -> Seq<PlanStep>
    decreases k,
{
    if k <= 0 {
        Seq::empty()
    } else {
        plan_upto(entries, k - 1) + (if keeps(entries[k - 1]) {
            seq![step_of(entries[k - 1])]
        } else {
            Seq::empty()
        })
    }
}

/// Every step of the plan of a sorted listing comes from a kept entry,
/// every kept entry's step is in it, and its names are in order.
proof fn lemma_plan_upto_props(s: Seq<DirEntry>, k: int)
    requires
        0 <= k <= s.len(),
        entries_sorted(s),
    ensures
        forall|i: int|
            0 <= i < plan_upto(s, k).len() ==> exists|t: int|
                0 <= t < k && keeps(s[t]) && #[trigger] plan_upto(s, k)[i] == step_of(s[t]),
        forall|t: int|
            0 <= t < k && keeps(#[trigger] s[t]) ==> plan_upto(s, k).contains(step_of(s[t])),
        forall|i1: int, i2: int|
            0 <= i1 < i2 < plan_upto(s, k).len() ==> lex_leq(
                step_name(#[trigger] plan_upto(s, k)[i1]),
                step_name(#[trigger] plan_upto(s, k)[i2]),
            ),
    decreases k,
{
    if k > 0 {
        lemma_plan_upto_props(s, k - 1);
        let prev = plan_upto(s, k - 1);
        let cur = plan_upto(s, k);
        assert forall|i: int| 0 <= i < cur.len() implies exists|t: int|
            0 <= t < k && keeps(s[t]) && #[trigger] cur[i] == step_of(s[t]) by {
            if i < prev.len() {
                assert(cur[i] == prev[i]);
                let t = choose|t: int| 0 <= t < k - 1 && keeps(s[t]) && prev[i] == step_of(s[t]);
                assert(0 <= t < k && keeps(s[t]) && cur[i] == step_of(s[t]));
            } else {
                assert(keeps(s[k - 1]) && cur[i] == step_of(s[k - 1]));
            }
        }
        assert forall|t: int| 0 <= t < k && keeps(#[trigger] s[t]) implies cur.contains(
            step_of(s[t]),
        ) by {
            if t < k - 1 {
                assert(prev.contains(step_of(s[t])));
                let i = choose|i: int| 0 <= i < prev.len() && prev[i] == step_of(s[t]);
                assert(cur[i] == step_of(s[t]));
            } else {
                assert(cur[cur.len() - 1] == step_of(s[k - 1]));
            }
        }
        assert forall|i1: int, i2: int| 0 <= i1 < i2 < cur.len() implies lex_leq(
            step_name(#[trigger] cur[i1]),
            step_name(#[trigger] cur[i2]),
        ) by {
            if i2 < prev.len() {
                assert(cur[i1] == prev[i1] && cur[i2] == prev[i2]);
            } else {
                assert(cur[i2] == step_of(s[k - 1]));
                assert(cur[i1] == prev[i1]);
                let t = choose|t: int| 0 <= t < k - 1 && keeps(s[t]) && prev[i1] == step_of(s[t]);
                assert(entry_leq(s[t], s[k - 1]));
                assert(step_name(step_of(s[t])) == s[t].name@);
                assert(step_name(step_of(s[k - 1])) == s[k - 1].name@);
            }
        }
    }
}

/// Whether sampled content bytes hold a NUL.
pub fn sample_has_nul(sample: &Vec<u8>) -> (r: bool)
    ensures
        r == has_nul(sample@),
{
    let n = sample.len();
    let mut i: usize = 0;
    while i < n
        invariant
            n == sample@.len(),
            0 <= i <= n,
            forall|j: int| 0 <= j < i ==> sample@[j] != 0,
        decreases n - i,
    {
        if sample[i] == 0 {
            return true;
        }
        i += 1;
    }
    false
}

/// The binary sniff over what the caller managed to read of a file's
/// leading bytes: a NUL marks it binary, and a file that could not be read
/// at all counts as text.
pub fn looks_binary(sample: &Option<Vec<u8>>) -> (r: bool)
    ensures
        r == binary_verdict(*sample),
{
    match sample {
        Some(s) => sample_has_nul(s),
        None => false,
    }
}

/// Whether an entry's name marks it hidden.
pub fn name_is_hidden(name: &str) -> (r: bool)
    ensures
        r == hidden(name@),
{
    if name.is_empty() {
        return false;
    }
    let c = name.get_char(0);
    c == '.'
}

/// Routes one operand: a non-directory is searched as it is, a directory
/// is expanded under recursion and otherwise warned about and skipped.
pub fn route_input(is_dir: bool, recursive: bool) -> (d: InputDisposition)
    ensures
        d == (if !is_dir {
            InputDisposition::Search
        } else if recursive {
            InputDisposition::Expand
        } else {
            InputDisposition::SkipDirectory
        }),
{
    if !is_dir {
        InputDisposition::Search
    } else if recursive {
        InputDisposition::Expand
    } else {
        InputDisposition::SkipDirectory
    }
}

/// Plans one directory's listing: sorts the entries by name, drops hidden
/// ones, drops regular files whose sample shows a NUL, and turns the rest
/// into steps in order.
///
/// The plan is exactly the kept part of some filename-sorted arrangement
/// of the listing; in particular no planned name is hidden, every planned
/// file search has a NUL-free sample behind it, every kept entry is
/// planned, and the plan's names are in order.
pub fn plan_directory(entries: Vec<DirEntry>) -> (plan: Vec<PlanStep>)
    ensures
        exists|s: Seq<DirEntry>|
            (#[trigger] s.to_multiset()) == entries@.to_multiset() && entries_sorted(s) && plan@
                == plan_upto(s, s.len() as int),
        forall|i: int|
            0 <= i < plan@.len() ==> exists|t: int|
                0 <= t < entries@.len() && keeps(#[trigger] entries@[t]) && #[trigger] plan@[i]
                    == step_of(entries@[t]),
        forall|t: int|
            0 <= t < entries@.len() && keeps(#[trigger] entries@[t]) ==> plan@.contains(
                step_of(entries@[t]),
            ),
        forall|i: int| 0 <= i < plan@.len() ==> !hidden(step_name(#[trigger] plan@[i])),
        forall|i1: int, i2: int|
            0 <= i1 < i2 < plan@.len() ==> lex_leq(
                step_name(#[trigger] plan@[i1]),
                step_name(#[trigger] plan@[i2]),
            ),
{
    let ghost ev = entries@;
    let sorted = sort_entries(entries);
    let ghost sv = sorted@;
    let n = sorted.len();
    let mut plan: Vec<PlanStep> = Vec::new();
    let mut i: usize = 0;
    while i < n
        invariant
            n == sv.len(),
            sv == sorted@,
            0 <= i <= n,
            plan@ == plan_upto(sv, i as int),
        decreases n - i,
    {
        let e = &sorted[i];
        let keep = if name_is_hidden(e.name.as_str()) {
            false
        } else if e.is_dir {
            true
        } else {
            !sample_has_nul(&e.sample)
        };
        if keep {
            let step = if e.is_dir {
                PlanStep::EnterDir(e.name.clone())
            } else {
                PlanStep::SearchFile(e.name.clone())
            };
            proof {
                assert(keeps(sv[i as int]));
            }
            plan.push(step);
            proof {
                assert(plan@ =~= plan_upto(sv, i + 1));
            }
        } else {
            proof {
                assert(!keeps(sv[i as int]));
                assert(plan@ =~= plan_upto(sv, i + 1));
            }
        }
        i += 1;
    }
    proof {
        lemma_plan_upto_props(sv, sv.len() as int);
        assert(sv.to_multiset() == ev.to_multiset() && entries_sorted(sv) && plan@ == plan_upto(
            sv,
            sv.len() as int,
        ));
        assert forall|i2: int| 0 <= i2 < plan@.len() implies exists|t: int|
            0 <= t < ev.len() && keeps(#[trigger] ev[t]) && #[trigger] plan@[i2] == step_of(
            ev[t],
        ) by {
            let t = choose|t: int|
                0 <= t < sv.len() && keeps(sv[t]) && #[trigger] plan@[i2] == step_of(sv[t]);
            assert(sv.to_multiset().count(sv[t]) > 0);
            assert(ev.to_multiset().count(sv[t]) > 0);
            assert(ev.contains(sv[t]));
            let u = choose|u: int| 0 <= u < ev.len() && ev[u] == sv[t];
            assert(0 <= u < ev.len() && keeps(ev[u]) && plan@[i2] == step_of(ev[u]));
        }
        assert forall|t: int| 0 <= t < ev.len() && keeps(#[trigger] ev[t]) implies plan@.contains(
            step_of(ev[t]),
        ) by {
            assert(ev.to_multiset().count(ev[t]) > 0);
            assert(sv.to_multiset().count(ev[t]) > 0);
            assert(sv.contains(ev[t]));
            let u = choose|u: int| 0 <= u < sv.len() && sv[u] == ev[t];
            assert(plan_upto(sv, sv.len() as int).contains(step_of(sv[u])));
        }
        assert forall|i2: int| 0 <= i2 < plan@.len() implies !hidden(
            step_name(#[trigger] plan@[i2]),
        ) by {
            let t = choose|t: int|
                0 <= t < sv.len() && keeps(sv[t]) && #[trigger] plan@[i2] == step_of(sv[t]);
            assert(step_name(step_of(sv[t])) == sv[t].name@);
        }
    }
    plan
}

/// Law: recursive traversal never plans a hidden name and never plans a
/// file whose sampled content holds a NUL byte.  Every step a sorted
/// listing's plan holds comes from an entry that traversal keeps: one that
/// is not hidden, and when it is a regular file, one whose sample shows no
/// NUL.
pub proof fn lemma_traversal_filters(s: Seq<DirEntry>, k: int)
    requires
        0 <= k <= s.len(),
        entries_sorted(s),
    ensures
        forall|i: int|
            0 <= i < plan_upto(s, k).len() ==> exists|t: int|
                0 <= t < k && !hidden(s[t].name@) && (s[t].is_dir || !has_nul(s[t].sample@))
                    && #[trigger] plan_upto(s, k)[i] == step_of(s[t]),
{
    lemma_plan_upto_props(s, k);
    assert forall|i: int| 0 <= i < plan_upto(s, k).len() implies exists|t: int|
        0 <= t < k && !hidden(s[t].name@) && (s[t].is_dir || !has_nul(s[t].sample@))
            && #[trigger] plan_upto(s, k)[i] == step_of(s[t]) by {
        let t = choose|t: int|
            0 <= t < k && keeps(s[t]) && #[trigger] plan_upto(s, k)[i] == step_of(s[t]);
        assert(0 <= t < k && !hidden(s[t].name@) && (s[t].is_dir || !has_nul(s[t].sample@))
            && plan_upto(s, k)[i] == step_of(s[t]));
    }
}

} // verus!
