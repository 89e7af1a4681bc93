//! The prefix of the output files' names.
//!
//! A prefix is made from what the user asked for, or else from the input
//! file's stem. Either text is first sanitized: every run of characters that
//! a file name should not hold becomes a single `-`, and no `-` is left at
//! either end or twice in a row. An empty result gives way to `rendered`, and
//! the prefix ends with one `-` that parts it from the page number.

use std::path::PathBuf;
use vstd::prelude::*;
use vstd::std_specs::iter::IteratorSpec;
use crate::text::{chars_of, push_chars};

verus! {

/// `std::path::PathBuf`, an owned path; nothing of its contents is modelled.
#[verifier::external_type_specification]
#[verifier::external_body]
pub struct ExPathBuf(PathBuf);

/// The stem of the last component of a path, as text: the file name without
/// its final extension, read under the platform's path syntax. `None` where
/// the path ends in no file name.
pub uninterp spec fn file_stem_of(path: &PathBuf) -> Option<Seq<char>>;

/// `Path::file_stem`, with the stem converted to a `String` by
/// `OsStr::to_string_lossy`. The stem is a function of the path alone, and
/// is given the name `file_stem_of`; nothing else is claimed of it.
#[verifier::external_body]
fn file_stem_text(input: &PathBuf) -> (stem: Option<String>)
    ensures
        match stem {
            Some(text) => file_stem_of(input) == Some(text@),
            None => file_stem_of(input) is None,
        },
{
    input.file_stem().map(|s| s.to_string_lossy().into_owned())
}

/// Characters that are copied as they are: ASCII letters and digits, `-`,
/// `_` and `.`.
pub open spec fn is_kept(c: char) -> bool {
    ||| 'a' <= c <= 'z'
    ||| 'A' <= c <= 'Z'
    ||| '0' <= c <= '9'
    ||| c == '-'
    ||| c == '_'
    ||| c == '.'
}

/// Whether every character of `t` is a kept one.
pub open spec fn all_kept(t: Seq<char>) -> bool {
    forall|i: int| 0 <= i < t.len() ==> is_kept(#[trigger] t[i])
}

/// Whether `t` holds two separators in a row.
pub open spec fn has_double_separator(t: Seq<char>) -> bool {
    exists|i: int| 0 <= i && i + 1 < t.len() && #[trigger] t[i] == '-' && t[i + 1] == '-'
}

/// `s` with every kept character copied and every run of other characters
/// turned into one separator.
pub open spec fn replace_unkept(s: Seq<char>) -> Seq<char>
    decreases s.len(),
{
    if s.len() == 0 {
        Seq::empty()
    } else {
        let before = s.drop_last();
        let done = replace_unkept(before);
        if is_kept(s.last()) {
            done.push(s.last())
        } else if before.len() > 0 && !is_kept(before.last()) {
            done
        } else {
            done.push('-')
        }
    }
}

/// `t` without the separators at its start.
pub open spec fn strip_leading(t: Seq<char>) -> Seq<char>
    decreases t.len(),
{
    if t.len() > 0 && t[0] == '-' {
        strip_leading(t.drop_first())
    } else {
        t
    }
}

/// `t` without the separators at its end.
pub open spec fn strip_trailing(t: Seq<char>) -> Seq<char>
    decreases t.len(),
{
    if t.len() > 0 && t.last() == '-' {
        strip_trailing(t.drop_last())
    } else {
        t
    }
}

/// `t` without the separators at its start and at its end.
pub open spec fn trim_separators(t: Seq<char>) -> Seq<char> {
    strip_trailing(strip_leading(t))
}

/// `t` with every run of separators shortened to one.
pub open spec fn collapse_separators(t: Seq<char>) -> Seq<char>
    decreases t.len(),
{
    if t.len() == 0 {
        Seq::empty()
    } else {
        let before = t.drop_last();
        let done = collapse_separators(before);
        if t.last() == '-' && before.len() > 0 && before.last() == '-' {
            done
        } else {
            done.push(t.last())
        }
    }
}

/// The sanitized form of `s`: unkept runs replaced, separators trimmed at
/// both ends, and runs of separators collapsed.
pub open spec fn sanitize(s: Seq<char>) -> Seq<char> {
    collapse_separators(trim_separators(replace_unkept(s)))
}

/// The name used where sanitizing leaves nothing.
pub open spec fn fallback_base() -> Seq<char> {
    "rendered"@
}

/// `base` with a separator at its end, added unless it is there already.
pub open spec fn with_trailing_separator(base: Seq<char>) -> Seq<char> {
    if base.len() > 0 && base.last() == '-' {
        base
    } else {
        base.push('-')
    }
}

/// The prefix made from the text `candidate`.
pub open spec fn prefix_of(candidate: Seq<char>) -> Seq<char> {
    let clean = sanitize(candidate);
    with_trailing_separator(
        if clean.len() == 0 {
            fallback_base()
        } else {
            clean
        },
    )
}

/// The prefix inferred from an input file's stem; a path without a stem
/// counts as one with the stem `rendered`.
pub open spec fn inferred_prefix(stem: Option<Seq<char>>) -> Seq<char> {
    match stem {
        Some(text) => prefix_of(text),
        None => prefix_of(fallback_base()),
    }
}

/// The prefix of a run: made from what the user gave, or else inferred from
/// the stem of the input file's name.
pub open spec fn resolved_prefix(given: Option<Seq<char>>, stem: Option<Seq<char>>) -> Seq<char> {
    match given {
        Some(text) => prefix_of(text),
        None => inferred_prefix(stem),
    }
}

/// What holds of every prefix: it is a non-empty body of kept characters
/// that neither starts nor ends with a separator and holds no two in a row,
/// followed by exactly one separator.
pub open spec fn is_prefix(p: Seq<char>) -> bool {
    &&& p.len() >= 2
    &&& p.last() == '-'
    &&& p[p.len() - 2] != '-'
    &&& p[0] != '-'
    &&& all_kept(p)
    &&& !has_double_separator(p)
}

proof fn lemma_replace_unkept_kept(s: Seq<char>)
    ensures
        all_kept(replace_unkept(s)),
    decreases s.len(),
{
    if s.len() > 0 {
        lemma_replace_unkept_kept(s.drop_last());
    }
}

proof fn lemma_strip_leading(t: Seq<char>)
    ensures
        strip_leading(t).len() <= t.len(),
        strip_leading(t) == t.skip(t.len() - strip_leading(t).len()),
        strip_leading(t).len() > 0 ==> strip_leading(t)[0] != '-',
    decreases t.len(),
{
    if t.len() > 0 && t[0] == '-' {
        lemma_strip_leading(t.drop_first());
        let rest = strip_leading(t.drop_first());
        assert(t.drop_first().skip(t.drop_first().len() - rest.len()) =~= t.skip(
            t.len() - rest.len(),
        ));
    } else {
        assert(t.skip(0) =~= t);
    }
}

proof fn lemma_strip_trailing(t: Seq<char>)
    ensures
        strip_trailing(t).len() <= t.len(),
        strip_trailing(t) == t.take(strip_trailing(t).len() as int),
        strip_trailing(t).len() > 0 ==> strip_trailing(t).last() != '-',
    decreases t.len(),
{
    if t.len() > 0 && t.last() == '-' {
        lemma_strip_trailing(t.drop_last());
        let rest = strip_trailing(t.drop_last());
        assert(t.drop_last().take(rest.len() as int) =~= t.take(rest.len() as int));
    } else {
        assert(t.take(t.len() as int) =~= t);
    }
}

proof fn lemma_collapse_separators(t: Seq<char>)
    ensures
        all_kept(t) ==> all_kept(collapse_separators(t)),
        !has_double_separator(collapse_separators(t)),
        t.len() > 0 ==> {
            &&& collapse_separators(t).len() > 0
            &&& collapse_separators(t)[0] == t[0]
            &&& collapse_separators(t).last() == t.last()
        },
    decreases t.len(),
{
    if t.len() > 0 {
        let before = t.drop_last();
        lemma_collapse_separators(before);
        let done = collapse_separators(before);
        let all = collapse_separators(t);
        if t.last() == '-' && before.len() > 0 && before.last() == '-' {
        } else {
            assert(all == done.push(t.last()));
            if has_double_separator(all) {
                let i = choose|i: int|
                    0 <= i && i + 1 < all.len() && #[trigger] all[i] == '-' && all[i + 1] == '-';
                if i + 1 < done.len() {
                    assert(done[i] == '-' && done[i + 1] == '-');
                } else {
                    assert(done.last() == '-');
                }
            }
        }
    }
}

/// A sanitized text holds kept characters only, no two separators in a row,
/// and no separator at its start or at its end.
pub proof fn lemma_sanitize_shape(s: Seq<char>)
    ensures
        all_kept(sanitize(s)),
        !has_double_separator(sanitize(s)),
        sanitize(s).len() > 0 ==> sanitize(s)[0] != '-' && sanitize(s).last() != '-',
{
    let replaced = replace_unkept(s);
    let led = strip_leading(replaced);
    let trimmed = strip_trailing(led);
    lemma_replace_unkept_kept(s);
    lemma_strip_leading(replaced);
    lemma_strip_trailing(led);
    assert(all_kept(trimmed)) by {
        assert forall|i: int| 0 <= i < trimmed.len() implies is_kept(#[trigger] trimmed[i]) by {
            assert(trimmed[i] == led[i]);
            assert(led[i] == replaced[i + (replaced.len() - led.len())]);
        }
    }
    lemma_collapse_separators(trimmed);
}

proof fn lemma_replace_unkept_fixed(t: Seq<char>)
    requires
        all_kept(t),
    ensures
        replace_unkept(t) == t,
    decreases t.len(),
{
    if t.len() > 0 {
        let before = t.drop_last();
        assert(all_kept(before)) by {
            assert forall|i: int| 0 <= i < before.len() implies is_kept(#[trigger] before[i]) by {
                assert(before[i] == t[i]);
            }
        }
        lemma_replace_unkept_fixed(before);
        assert(is_kept(t[t.len() - 1]));
        assert(before.push(t.last()) =~= t);
    } else {
        assert(replace_unkept(t) =~= t);
    }
}

proof fn lemma_collapse_separators_fixed(t: Seq<char>)
    requires
        !has_double_separator(t),
    ensures
        collapse_separators(t) == t,
    decreases t.len(),
{
    if t.len() > 0 {
        let before = t.drop_last();
        if has_double_separator(before) {
            let i = choose|i: int|
                0 <= i && i + 1 < before.len() && #[trigger] before[i] == '-' && before[i + 1]
                    == '-';
            assert(t[i] == '-' && t[i + 1] == '-');
        }
        lemma_collapse_separators_fixed(before);
        if before.len() > 0 && t.last() == '-' && before.last() == '-' {
            assert(t[t.len() - 2] == '-' && t[t.len() - 2 + 1] == '-');
        }
        assert(before.push(t.last()) =~= t);
    } else {
        assert(collapse_separators(t) =~= t);
    }
}

/// A text that has the shape of a sanitized one is left as it is.
pub proof fn lemma_sanitize_fixed(t: Seq<char>)
    requires
        all_kept(t),
        !has_double_separator(t),
        t.len() > 0 ==> t[0] != '-' && t.last() != '-',
    ensures
        sanitize(t) == t,
{
    lemma_replace_unkept_fixed(t);
    assert(strip_leading(t) == t);
    assert(strip_trailing(t) == t);
    lemma_collapse_separators_fixed(t);
}

/// Sanitizing a sanitized text changes nothing.
pub proof fn lemma_sanitize_idempotent(s: Seq<char>)
    ensures
        sanitize(sanitize(s)) == sanitize(s),
{
    lemma_sanitize_shape(s);
    lemma_sanitize_fixed(sanitize(s));
}

/// Every prefix has the shape that `is_prefix` describes, and it is the
/// sanitized candidate (or `rendered`) followed by one separator.
pub proof fn lemma_prefix_shape(candidate: Seq<char>)
    ensures
        is_prefix(prefix_of(candidate)),
        prefix_of(candidate) == (if sanitize(candidate).len() == 0 {
            fallback_base()
        } else {
            sanitize(candidate)
        }).push('-'),
{
    reveal_strlit("rendered");
    lemma_sanitize_shape(candidate);
    let clean = sanitize(candidate);
    let base = if clean.len() == 0 {
        fallback_base()
    } else {
        clean
    };
    assert(base.len() > 0);
    assert(base.last() != '-');
    assert(base[0] != '-');
    assert(all_kept(base));
    assert(!has_double_separator(base)) by {
        if clean.len() == 0 {
            if has_double_separator(base) {
                let i = choose|i: int|
                    0 <= i && i + 1 < base.len() && #[trigger] base[i] == '-' && base[i + 1] == '-';
                assert(base[i] != '-');
            }
        }
    }
    let p = base.push('-');
    assert(prefix_of(candidate) == p);
    assert(!has_double_separator(p)) by {
        if has_double_separator(p) {
            let i = choose|i: int|
                0 <= i && i + 1 < p.len() && #[trigger] p[i] == '-' && p[i + 1] == '-';
            if i + 1 < base.len() {
                assert(base[i] == '-' && base[i + 1] == '-');
            } else {
                assert(p[i] == base.last());
            }
        }
    }
    assert(all_kept(p)) by {
        assert forall|i: int| 0 <= i < p.len() implies is_kept(#[trigger] p[i]) by {
            if i < base.len() {
                assert(p[i] == base[i]);
            }
        }
    }
    assert(p[p.len() - 2] == base.last());
    assert(p[0] == base[0]);
}

fn keeps(c: char) -> (kept: bool)
    ensures
        kept == is_kept(c),
{
    ('a' <= c && c <= 'z') || ('A' <= c && c <= 'Z') || ('0' <= c && c <= '9') || c == '-' || c
        == '_' || c == '.'
}

fn replaced_chars(s: &str) -> (out: Vec<char>)
    ensures
        out@ == replace_unkept(s@),
{
    broadcast use vstd::string::group_string_axioms;

    let mut out: Vec<char> = Vec::new();
    let mut last_was_sep = false;
    let mut rest = s.chars();
    let ghost mut seen: int = 0;
    loop
        invariant
            0 <= seen <= s@.len(),
            rest.obeys_prophetic_iter_laws(),
            rest.remaining() == s@.skip(seen),
            out@ == replace_unkept(s@.take(seen)),
            last_was_sep == (seen > 0 && !is_kept(s@[seen - 1])),
        ensures
            out@ == replace_unkept(s@),
        decreases s@.len() - seen,
    {
        match rest.next() {
            None => {
                proof {
                    assert(s@.take(seen) == s@);
                }
                break ;
            },
            Some(c) => {
                proof {
                    assert(s@.take(seen + 1).drop_last() == s@.take(seen));
                    assert(s@.take(seen + 1).last() == c);
                    seen = seen + 1;
                }
                if keeps(c) {
                    out.push(c);
                    last_was_sep = false;
                } else if !last_was_sep {
                    out.push('-');
                    last_was_sep = true;
                }
            },
        }
    }
    out
}

fn sanitized_chars(s: &str) -> (clean: Vec<char>)
    ensures
        clean@ == sanitize(s@),
{
    let out = replaced_chars(s);
    let mut lo: usize = 0;
    proof {
        assert(out@.skip(0) == out@);
    }
    while lo < out.len() && out[lo] == '-'
        invariant
            lo <= out.len(),
            strip_leading(out@) == strip_leading(out@.skip(lo as int)),
        decreases out.len() - lo,
    {
        proof {
            assert(out@.skip(lo as int).drop_first() == out@.skip(lo + 1));
        }
        lo = lo + 1;
    }
    let mut hi: usize = out.len();
    proof {
        assert(out@.subrange(lo as int, hi as int) == out@.skip(lo as int));
    }
    while hi > lo && out[hi - 1] == '-'
        invariant
            lo <= hi <= out.len(),
            trim_separators(out@) == strip_trailing(out@.subrange(lo as int, hi as int)),
        decreases hi - lo,
    {
        proof {
            assert(out@.subrange(lo as int, hi as int).drop_last() == out@.subrange(
                lo as int,
                hi - 1,
            ));
        }
        hi = hi - 1;
    }
    let ghost trimmed = out@.subrange(lo as int, hi as int);
    assert(trim_separators(out@) == trimmed);
    let mut clean: Vec<char> = Vec::new();
    let mut prev_sep = false;
    let mut i: usize = lo;
    while i < hi
        invariant
            lo <= i <= hi <= out.len(),
            trimmed == out@.subrange(lo as int, hi as int),
            clean@ == collapse_separators(trimmed.take(i - lo)),
            prev_sep == (i > lo && out@[i - 1] == '-'),
        decreases hi - i,
    {
        let c = out[i];
        proof {
            assert(trimmed.take(i + 1 - lo).drop_last() == trimmed.take(i - lo));
            assert(trimmed.take(i + 1 - lo).last() == c);
        }
        if c == '-' {
            if !prev_sep {
                clean.push('-');
                prev_sep = true;
            }
        } else {
            clean.push(c);
            prev_sep = false;
        }
        i = i + 1;
    }
    proof {
        assert(trimmed.take(hi - lo) == trimmed);
    }
    clean
}

/// Sanitizes `s`: keeps ASCII letters and digits, `-`, `_` and `.`, replaces
/// each run of other characters with one `-`, trims `-` at both ends and
/// collapses what runs of `-` are left.
pub fn sanitize_prefix_raw(s: &str) -> (clean: String)
    ensures
        clean@ == sanitize(s@),
        all_kept(clean@),
        !has_double_separator(clean@),
        clean@.len() > 0 ==> clean@[0] != '-' && clean@.last() != '-',
{
    let chars = sanitized_chars(s);
    let mut clean = String::new();
    push_chars(&mut clean, &chars, 0, chars.len());
    proof {
        assert(chars@.subrange(0, chars.len() as int) == chars@);
        lemma_sanitize_shape(s@);
    }
    clean
}

/// The prefix made from `candidate`: its sanitized form, or `rendered` where
/// that is empty, followed by one `-`.
pub fn prefix_from(candidate: &str) -> (prefix: String)
    ensures
        prefix@ == prefix_of(candidate@),
        is_prefix(prefix@),
{
    let clean = sanitized_chars(candidate);
    let base = if clean.len() == 0 {
        chars_of("rendered")
    } else {
        clean
    };
    let mut prefix = String::new();
    push_chars(&mut prefix, &base, 0, base.len());
    proof {
        assert(base@.subrange(0, base.len() as int) == base@);
    }
    if !(base.len() > 0 && base[base.len() - 1] == '-') {
        prefix.push('-');
    }
    proof {
        lemma_prefix_shape(candidate@);
    }
    prefix
}

/// The prefix inferred from the stem of the input file's name, `rendered`
/// standing in where the path has no stem.
pub fn infer_prefix(stem: Option<&str>) -> (prefix: String)
    ensures
        prefix@ == inferred_prefix(
            match stem {
                Some(text) => Some(text@),
                None => None,
            },
        ),
        is_prefix(prefix@),
{
    match stem {
        Some(text) => prefix_from(text),
        None => prefix_from("rendered"),
    }
}

/// Resolves the prefix of the output files' names: from `prefix` where the
/// user gave one, else from the stem of `input`.
pub fn resolve_prefix(prefix: Option<&str>, input: &PathBuf) -> (resolved: String)
    ensures
        resolved@ == resolved_prefix(
            match prefix {
                Some(given) => Some(given@),
                None => None,
            },
            file_stem_of(input),
        ),
        is_prefix(resolved@),
{
    match prefix {
        Some(given) => prefix_from(given),
        None => match file_stem_text(input) {
            Some(text) => infer_prefix(Some(text.as_str())),
            None => infer_prefix(None),
        },
    }
}

} // verus!
