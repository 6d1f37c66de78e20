//! The line-search engine and the run orchestrator.
//!
//! The engine consumes an in-memory, 1-indexed sequence of decoded lines,
//! classifies each with a compiled [`Matcher`], and renders the selected
//! ones under the configured output modes.  Mode precedence is fixed:
//! names-only dominates count-only, which dominates ordinary per-line
//! printing; inversion and line numbers are orthogonal modifiers.  The
//! orchestrator drives the engine once per source, decides filename
//! prefixing, and folds the per-source results into the run's exit
//! disposition.

use vstd::prelude::*;

use crate::matcher::Matcher;
use crate::matcher::regex_match;
use crate::render::dec_digits;
use crate::render::push_char;
use crate::render::usize_to_string;

verus! {

/// The orthogonal output-mode switches of one invocation.
///
/// Any combination is legal; see the module documentation for precedence.
pub struct SearchConfig {
    /// Select the lines the matcher does not match.
    pub invert: bool,
    /// Prefix each printed line with its 1-based index in its source.
    pub line_number: bool,
    /// Print one count of selected lines per source instead of the lines.
    pub count_only: bool,
    /// Print only the name of each source with a selected line, and leave
    /// the rest of that source unread.
    pub names_only: bool,
}

/// What one source produced: whether anything was selected, how many lines
/// were selected, how many lines of the source were examined, and the bytes
/// to emit.
pub struct SearchOutcome {
    /// True exactly when some line of the source is selected.
    pub found: bool,
    /// How many of the examined lines were selected.
    pub count: usize,
    /// How many lines were consumed before stopping.
    pub lines_read: usize,
    /// The rendered output for this source.
    pub output: String,
}

/// One unit of input to search: a named, fully decoded line sequence.
pub struct Source {
    /// The name used for prefixes and names-only output.
    pub name: String,
    /// The decoded lines, without terminators.
    pub lines: Vec<String>,
}

/// What a whole run produced.
pub struct RunOutcome {
    /// True exactly when some line of some source was selected.
    pub any_match: bool,
    /// The concatenated rendered output of all sources, in order.
    pub output: String,
}

/// The effective per-line test: the matcher's verdict, inverted on request.
pub open spec fn selection(
    pattern: Seq<char>,
    ignore_case: bool,
    invert: bool,
    line: Seq<char>,
) -> bool {
    if invert {
        !regex_match(pattern, ignore_case, line)
    } else {
        regex_match(pattern, ignore_case, line)
    }
}

/// The selection predicate as a function of the line alone.
pub open spec fn selector(pattern: Seq<char>, ignore_case: bool, invert: bool) -> spec_fn(
    Seq<char>,
) -> bool {
    |line: Seq<char>| selection(pattern, ignore_case, invert, line)
}

/// The selected lines among the first `k`, each paired with its 1-based
/// index, in order.
pub open spec fn selected_upto(
    lines: Seq<Seq<char>>,
    sel: spec_fn(Seq<char>) -> bool,
    k: int,
) -> Seq<(int, Seq<char>)>
    decreases k,
{
    if k <= 0 {
        Seq::empty()
    } else {
        selected_upto(lines, sel, k - 1) + (if sel(lines[k - 1]) {
            seq![(k, lines[k - 1])]
        } else {
            Seq::empty()
        })
    }
}

/// The view of an optional source name.
pub open spec fn name_view(name: Option<&String>) -> Option<Seq<char>> {
    match name {
        Some(n) => Some(n@),
        None => None,
    }
}

/// The prefix put before each printed line and before a count: the source
/// name and a colon, present exactly when prefixing is on and a name is.
pub open spec fn name_prefix(name: Option<Seq<char>>, show_prefix: bool) -> Seq<char> {
    if show_prefix && name is Some {
        name->0 + seq![':']
    } else {
        Seq::empty()
    }
}

/// One printed line: prefix, optional 1-based index and colon, the text,
/// and a terminator.
pub open spec fn rendered_line(
    prefix: Seq<char>,
    number: bool,
    idx: int,
    text: Seq<char>,
) -> Seq<char> {
    prefix + (if number {
        dec_digits(idx as nat) + seq![':']
    } else {
        Seq::empty()
    }) + text + seq!['\n']
}

/// The concatenated rendering of selected records.
pub open spec fn render_records(
    records: Seq<(int, Seq<char>)>,
    prefix: Seq<char>,
    number: bool,
) -> Seq<char>
    decreases records.len(),
{
    if records.len() == 0 {
        Seq::empty()
    } else {
        rendered_line(prefix, number, records[0].0, records[0].1) + render_records(
            records.drop_first(),
            prefix,
            number,
        )
    }
}

/// Everything one source emits, mode by mode.
pub open spec fn search_output(
    lines: Seq<Seq<char>>,
    name: Option<Seq<char>>,
    sel: spec_fn(Seq<char>) -> bool,
    cfg: SearchConfig,
    show_prefix: bool,
) -> Seq<char> {
    let records = selected_upto(lines, sel, lines.len() as int);
    if cfg.names_only {
        if records.len() > 0 && name is Some {
            name->0 + seq!['\n']
        } else {
            Seq::empty()
        }
    } else if cfg.count_only {
        name_prefix(name, show_prefix) + dec_digits(records.len()) + seq!['\n']
    } else {
        render_records(records, name_prefix(name, show_prefix), cfg.line_number)
    }
}

/// Concatenation distributes over the rendering of records.
proof fn lemma_render_records_add(
    a: Seq<(int, Seq<char>)>,
    b: Seq<(int, Seq<char>)>,
    prefix: Seq<char>,
    number: bool,
)
    ensures
        render_records(a + b, prefix, number) == render_records(a, prefix, number)
            + render_records(b, prefix, number),
    decreases a.len(),
{
    if a.len() == 0 {
        assert(a + b =~= b);
        assert(render_records(a, prefix, number) + render_records(b, prefix, number)
            =~= render_records(b, prefix, number));
    } else {
        assert((a + b).drop_first() =~= a.drop_first() + b);
        lemma_render_records_add(a.drop_first(), b, prefix, number);
        assert(rendered_line(prefix, number, a[0].0, a[0].1) + (render_records(
            a.drop_first(),
            prefix,
            number,
        ) + render_records(b, prefix, number)) =~= (rendered_line(prefix, number, a[0].0, a[0].1)
            + render_records(a.drop_first(), prefix, number)) + render_records(b, prefix, number));
    }
}

/// The rendering of a single record is that record's line.
proof fn lemma_render_records_one(rec: (int, Seq<char>), prefix: Seq<char>, number: bool)
    ensures
        render_records(seq![rec], prefix, number) == rendered_line(prefix, number, rec.0, rec.1),
{
    let s: Seq<(int, Seq<char>)> = seq![rec];
    assert(s.len() == 1);
    assert(s[0] == rec);
    assert(s.drop_first().len() == 0);
    assert(render_records(s.drop_first(), prefix, number) == Seq::<char>::empty());
    assert(render_records(s, prefix, number) =~= rendered_line(prefix, number, rec.0, rec.1));
}

/// Some line among the first `k` is selected exactly when some record is.
proof fn lemma_selected_upto_nonempty(lines: Seq<Seq<char>>, sel: spec_fn(Seq<char>) -> bool, k: int)
    requires
        k <= lines.len(),
    ensures
        selected_upto(lines, sel, k).len() > 0 <==> exists|j: int| 0 <= j < k && sel(lines[j]),
    decreases k,
{
    if k > 0 {
        lemma_selected_upto_nonempty(lines, sel, k - 1);
        if sel(lines[k - 1]) {
            assert(0 <= k - 1 < k && sel(lines[k - 1]));
        } else {
            assert((exists|j: int| 0 <= j < k && sel(lines[j])) ==> (exists|j: int|
                0 <= j < k - 1 && sel(lines[j])));
        }
    }
}

/// Searches one source.
///
/// The outcome's `output` is exactly [`search_output`] for this source; the
/// `found` flag reports whether any line is selected; and in names-only
/// mode the engine stops at the first selected line, leaving the rest of
/// the source unread, as `lines_read` records.
pub fn search_lines(
    lines: &Vec<String>,
    name: Option<&String>,
    matcher: &Matcher,
    cfg: &SearchConfig,
    show_prefix: bool,
) -> (r: SearchOutcome)
    ensures
        ({
            let sel = selector(matcher.pattern(), matcher.ignore_case(), cfg.invert);
            let lv = lines.deep_view();
            let nv = name_view(name);
            &&& (r.found <==> exists|j: int| 0 <= j < lv.len() && sel(lv[j]))
            &&& r.output@ == search_output(lv, nv, sel, *cfg, show_prefix)
            &&& (!cfg.names_only ==> r.lines_read == lv.len())
            &&& (!cfg.names_only ==> r.count == selected_upto(lv, sel, lv.len() as int).len())
            &&& (cfg.names_only ==> r.count == (if r.found {
                1int
            } else {
                0int
            }))
            &&& (cfg.names_only && r.found ==> 1 <= r.lines_read <= lv.len() && sel(
                lv[r.lines_read - 1],
            ) && (forall|j: int| 0 <= j < r.lines_read - 1 ==> !sel(lv[j])))
            &&& (cfg.names_only && !r.found ==> r.lines_read == lv.len())
        }),
{
    let ghost sel = selector(matcher.pattern(), matcher.ignore_case(), cfg.invert);
    let ghost lv = lines.deep_view();
    let ghost nv = name_view(name);
    let n = lines.len();

    if cfg.names_only {
        let mut i: usize = 0;
        while i < n
            invariant
                n == lv.len(),
                lv == lines.deep_view(),
                sel == selector(matcher.pattern(), matcher.ignore_case(), cfg.invert),
                nv == name_view(name),
                cfg.names_only,
                0 <= i <= n,
                forall|j: int| 0 <= j < i ==> !sel(lv[j]),
            decreases n - i,
        {
            let m = matcher.is_match(lines[i].as_str());
            let picked = if cfg.invert {
                !m
            } else {
                m
            };
            proof {
                assert(lv[i as int] == lines@[i as int]@);
                assert(picked == sel(lv[i as int]));
            }
            if picked {
                let mut out = String::new();
                if let Some(nm) = name {
                    out.append(nm.as_str());
                    push_char(&mut out, '\n');
                }
                proof {
                    lemma_selected_upto_nonempty(lv, sel, lv.len() as int);
                    assert(out@ =~= search_output(lv, nv, sel, *cfg, show_prefix));
                }
                return SearchOutcome { found: true, count: 1, lines_read: i + 1, output: out };
            }
            i += 1;
        }
        proof {
            lemma_selected_upto_nonempty(lv, sel, lv.len() as int);
        }
        return SearchOutcome { found: false, count: 0, lines_read: n, output: String::new() };
    }

    let mut pfx = String::new();
    if show_prefix {
        if let Some(nm) = name {
            pfx.append(nm.as_str());
            push_char(&mut pfx, ':');
        }
    }
    proof {
        assert(pfx@ =~= name_prefix(nv, show_prefix));
    }

    let mut out = String::new();
    let mut count: usize = 0;
    let mut found = false;
    let mut i: usize = 0;
    while i < n
        invariant
            n == lv.len(),
            lv == lines.deep_view(),
            sel == selector(matcher.pattern(), matcher.ignore_case(), cfg.invert),
            nv == name_view(name),
            pfx@ == name_prefix(nv, show_prefix),
            0 <= i <= n,
            count <= i,
            count == selected_upto(lv, sel, i as int).len(),
            found <==> exists|j: int| 0 <= j < i && sel(lv[j]),
            !cfg.count_only ==> out@ == render_records(
                selected_upto(lv, sel, i as int),
                name_prefix(nv, show_prefix),
                cfg.line_number,
            ),
            cfg.count_only ==> out@ == Seq::<char>::empty(),
        decreases n - i,
    {
        let m = matcher.is_match(lines[i].as_str());
        let picked = if cfg.invert {
            !m
        } else {
            m
        };
        proof {
            assert(lv[i as int] == lines@[i as int]@);
            assert(picked == sel(lv[i as int]));
        }
        if picked {
            found = true;
            count += 1;
            if !cfg.count_only {
                let ghost out0 = out@;
                out.append(pfx.as_str());
                if cfg.line_number {
                    let num = usize_to_string(i + 1);
                    out.append(num.as_str());
                    push_char(&mut out, ':');
                }
                out.append(lines[i].as_str());
                push_char(&mut out, '\n');
                proof {
                    assert(out@ =~= out0 + rendered_line(
                        name_prefix(nv, show_prefix),
                        cfg.line_number,
                        i + 1,
                        lv[i as int],
                    ));
                    lemma_render_records_add(
                        selected_upto(lv, sel, i as int),
                        seq![(i + 1int, lv[i as int])],
                        name_prefix(nv, show_prefix),
                        cfg.line_number,
                    );
                    lemma_render_records_one(
                        (i + 1int, lv[i as int]),
                        name_prefix(nv, show_prefix),
                        cfg.line_number,
                    );
                }
            }
        } else {
            proof {
                assert(selected_upto(lv, sel, i + 1) =~= selected_upto(lv, sel, i as int));
            }
        }
        i += 1;
    }

    if cfg.count_only {
        out.append(pfx.as_str());
        let num = usize_to_string(count);
        out.append(num.as_str());
        push_char(&mut out, '\n');
        proof {
            assert(out@ =~= search_output(lv, nv, sel, *cfg, show_prefix));
        }
    }
    SearchOutcome { found, count, lines_read: n, output: out }
}


/// Whether some line of `s` is selected under the given pattern and modes.
pub open spec fn source_has_match(
    s: Source,
    pattern: Seq<char>,
    ignore_case: bool,
    invert: bool,
) -> bool {
    exists|j: int|
        0 <= j < s.lines.deep_view().len() && selector(pattern, ignore_case, invert)(
            s.lines.deep_view()[j],
        )
}

/// The concatenated output of a whole run over the first `k` sources.
pub open spec fn run_output_upto(
    sources: Seq<Source>,
    pattern: Seq<char>,
    ignore_case: bool,
    cfg: SearchConfig,
    show_prefix: bool,
    k: int,
) -> Seq<char>
    decreases k,
{
    if k <= 0 {
        Seq::empty()
    } else {
        run_output_upto(sources, pattern, ignore_case, cfg, show_prefix, k - 1) + search_output(
            sources[k - 1].lines.deep_view(),
            Some(sources[k - 1].name@),
            selector(pattern, ignore_case, cfg.invert),
            cfg,
            show_prefix,
        )
    }
}

/// Whether a run prefixes printed lines with their source's name: exactly
/// when more than one source participates, so a single file or standard
/// input alone stays unprefixed.
pub fn wants_prefix(source_count: usize) -> (b: bool)
    ensures
        b <==> source_count > 1,
{
    source_count > 1
}

/// Searches every source in order, prefixing exactly when more than one
/// source participates, and folds each source's `found` flag into the
/// run-wide match signal.
pub fn search_sources(sources: &Vec<Source>, matcher: &Matcher, cfg: &SearchConfig) -> (r:
    RunOutcome)
    ensures
        ({
            let sv = sources@;
            &&& (r.any_match <==> exists|i: int|
                0 <= i < sv.len() && source_has_match(
                    sv[i],
                    matcher.pattern(),
                    matcher.ignore_case(),
                    cfg.invert,
                ))
            &&& r.output@ == run_output_upto(
                sv,
                matcher.pattern(),
                matcher.ignore_case(),
                *cfg,
                sv.len() > 1,
                sv.len() as int,
            )
        }),
{
    let n = sources.len();
    let show_prefix = wants_prefix(n);
    let mut out = String::new();
    let mut any_match = false;
    let mut i: usize = 0;
    while i < n
        invariant
            n == sources@.len(),
            show_prefix <==> n > 1,
            0 <= i <= n,
            out@ == run_output_upto(
                sources@,
                matcher.pattern(),
                matcher.ignore_case(),
                *cfg,
                show_prefix,
                i as int,
            ),
            any_match <==> exists|t: int|
                0 <= t < i && source_has_match(
                    sources@[t],
                    matcher.pattern(),
                    matcher.ignore_case(),
                    cfg.invert,
                ),
        decreases n - i,
    {
        let src = &sources[i];
        let o = search_lines(&src.lines, Some(&src.name), matcher, cfg, show_prefix);
        out.append(o.output.as_str());
        if o.found {
            any_match = true;
        }
        proof {
            assert(sources@[i as int] == *src);
            assert(o.found == source_has_match(
                sources@[i as int],
                matcher.pattern(),
                matcher.ignore_case(),
                cfg.invert,
            ));
        }
        i += 1;
    }
    RunOutcome { any_match, output: out }
}

/// The run's exit disposition: 2 after a fatal condition (a pattern that
/// does not compile, or standard input failing), else 0 exactly when some
/// line was selected somewhere, else 1.
pub fn exit_code(fatal: bool, any_match: bool) -> (code: i32)
    ensures
        code == (if fatal {
            2int
        } else if any_match {
            0int
        } else {
            1int
        }),
{
    if fatal {
        2
    } else if any_match {
        0
    } else {
        1
    }
}

/// The selected records of the first `k` lines carry exactly the texts of
/// the filtered prefix, in order, under strictly increasing 1-based
/// indices.
proof fn lemma_selected_upto_filter(lines: Seq<Seq<char>>, sel: spec_fn(Seq<char>) -> bool, k: int)
    requires
        0 <= k <= lines.len(),
    ensures
        selected_upto(lines, sel, k).len() == lines.take(k).filter(sel).len(),
        forall|t: int|
            0 <= t < selected_upto(lines, sel, k).len() ==> (#[trigger] selected_upto(
                lines,
                sel,
                k,
            )[t]).1 == lines.take(k).filter(sel)[t],
        forall|t: int|
            0 <= t < selected_upto(lines, sel, k).len() ==> 1 <= (#[trigger] selected_upto(
                lines,
                sel,
                k,
            )[t]).0 <= k,
        forall|t1: int, t2: int|
            0 <= t1 < t2 < selected_upto(lines, sel, k).len() ==> (#[trigger] selected_upto(
                lines,
                sel,
                k,
            )[t1]).0 < (#[trigger] selected_upto(lines, sel, k)[t2]).0,
    decreases k,
{
    reveal_with_fuel(Seq::filter, 2);
    if k == 0 {
        assert(lines.take(0).filter(sel).len() == 0);
    } else {
        lemma_selected_upto_filter(lines, sel, k - 1);
        let t = lines.take(k);
        assert(t.drop_last() =~= lines.take(k - 1));
        assert(t.last() == lines[k - 1]);
        if sel(lines[k - 1]) {
            assert(t.filter(sel) == lines.take(k - 1).filter(sel).push(lines[k - 1]));
        } else {
            assert(t.filter(sel) == lines.take(k - 1).filter(sel));
        }
    }
}

/// A predicate and its pointwise negation split a line sequence: their
/// filters' lengths sum to the whole.
proof fn lemma_filter_split(
    lines: Seq<Seq<char>>,
    p: spec_fn(Seq<char>) -> bool,
    q: spec_fn(Seq<char>) -> bool,
)
    requires
        forall|l: Seq<char>| #[trigger] q(l) == !p(l),
    ensures
        lines.filter(p).len() + lines.filter(q).len() == lines.len(),
    decreases lines.len(),
{
    reveal_with_fuel(Seq::filter, 2);
    if lines.len() > 0 {
        lemma_filter_split(lines.drop_last(), p, q);
        assert(q(lines.last()) == !p(lines.last()));
    }
}

/// Law: with inversion off, the engine selects exactly the lines the
/// matcher matches, as texts in their original order.
pub proof fn lemma_no_invert_selects_matches(
    lines: Seq<Seq<char>>,
    pattern: Seq<char>,
    ignore_case: bool,
)
    ensures
        forall|l: Seq<char>| #[trigger] selector(pattern, ignore_case, false)(l) == regex_match(
            pattern,
            ignore_case,
            l,
        ),
        ({
            let records = selected_upto(
                lines,
                selector(pattern, ignore_case, false),
                lines.len() as int,
            );
            let matching = lines.filter(selector(pattern, ignore_case, false));
            &&& records.len() == matching.len()
            &&& (forall|t: int| 0 <= t < records.len() ==> (#[trigger] records[t]).1 == matching[t])
            &&& (forall|t1: int, t2: int|
                0 <= t1 < t2 < records.len() ==> (#[trigger] records[t1]).0 < (
                #[trigger] records[t2]).0)
        }),
{
    lemma_selected_upto_filter(lines, selector(pattern, ignore_case, false), lines.len() as int);
    assert(lines.take(lines.len() as int) =~= lines);
}

/// Law: turning inversion on selects exactly the complement, as texts in
/// their original order; together the two selections cover every line
/// once.
pub proof fn lemma_invert_selects_complement(
    lines: Seq<Seq<char>>,
    pattern: Seq<char>,
    ignore_case: bool,
)
    ensures
        forall|l: Seq<char>| #[trigger] selector(pattern, ignore_case, true)(l) == !regex_match(
            pattern,
            ignore_case,
            l,
        ),
        ({
            let records = selected_upto(
                lines,
                selector(pattern, ignore_case, true),
                lines.len() as int,
            );
            let complement = lines.filter(selector(pattern, ignore_case, true));
            &&& records.len() == complement.len()
            &&& (forall|t: int|
                0 <= t < records.len() ==> (#[trigger] records[t]).1 == complement[t])
            &&& (forall|t1: int, t2: int|
                0 <= t1 < t2 < records.len() ==> (#[trigger] records[t1]).0 < (
                #[trigger] records[t2]).0)
        }),
        lines.filter(selector(pattern, ignore_case, false)).len() + lines.filter(
            selector(pattern, ignore_case, true),
        ).len() == lines.len(),
{
    lemma_selected_upto_filter(lines, selector(pattern, ignore_case, true), lines.len() as int);
    assert(lines.take(lines.len() as int) =~= lines);
    lemma_filter_split(
        lines,
        selector(pattern, ignore_case, false),
        selector(pattern, ignore_case, true),
    );
}

/// Law: a count reports exactly how many lines satisfy the selection
/// predicate, zero included.
pub proof fn lemma_count_is_matching_line_count(
    lines: Seq<Seq<char>>,
    pattern: Seq<char>,
    ignore_case: bool,
    invert: bool,
)
    ensures
        selected_upto(lines, selector(pattern, ignore_case, invert), lines.len() as int).len()
            == lines.filter(selector(pattern, ignore_case, invert)).len(),
{
    lemma_selected_upto_filter(lines, selector(pattern, ignore_case, invert), lines.len() as int);
    assert(lines.take(lines.len() as int) =~= lines);
}

/// Law: the filename prefix appears exactly in runs over more than one
/// source.  [`search_sources`] prefixes with `sources.len() > 1`, so with
/// at most one source every printed line and count starts bare, and with
/// several each starts with its source's name and a colon.
pub proof fn lemma_prefix_iff_multiple_sources(name: Option<Seq<char>>, source_count: int)
    ensures
        source_count <= 1 ==> name_prefix(name, source_count > 1) == Seq::<char>::empty(),
        source_count > 1 && name is Some ==> name_prefix(name, source_count > 1) == name->0
            + seq![':'],
{
}

} // verus!

