//! The placeholder grammar.
//!
//! A placeholder is two underscores, one or more name characters, and two
//! underscores: `__color__`, `__scene/sky-1__`. The underscore is itself a
//! name character, so a placeholder may hold runs of underscores inside;
//! where several placeholders could start at one position the longest one is
//! meant. A template is scanned from left to right, and the scan goes on
//! behind each placeholder it finds, so placeholders never overlap.

use vstd::prelude::*;
use crate::text::{chars_of, string_of, texts};

verus! {

/// The characters a placeholder may be made of: ASCII letters and digits,
/// underscore, hyphen and slash.
pub open spec fn is_name_char(c: char) -> bool {
    ||| 'a' <= c <= 'z'
    ||| 'A' <= c <= 'Z'
    ||| '0' <= c <= '9'
    ||| c == '_'
    ||| c == '-'
    ||| c == '/'
}

/// Whether `t` as a whole is a placeholder.
pub open spec fn is_token(t: Seq<char>) -> bool {
    &&& t.len() >= 5
    &&& t[0] == '_'
    &&& t[1] == '_'
    &&& t[t.len() - 2] == '_'
    &&& t[t.len() - 1] == '_'
    &&& forall|k: int| 0 <= k < t.len() ==> is_name_char(#[trigger] t[k])
}

/// Where the run of name characters that starts at `from` ends.
pub open spec fn run_end(s: Seq<char>, from: int) -> int
    decreases s.len() - from,
{
    if 0 <= from < s.len() && is_name_char(s[from]) {
        run_end(s, from + 1)
    } else {
        from
    }
}

/// The greatest position in `lo..=hi` that has two underscores just before
/// it, or -1 where there is none.
pub open spec fn last_closing(s: Seq<char>, lo: int, hi: int) -> int
    decreases hi - lo + 1,
{
    if hi < lo {
        -1
    } else if s[hi - 2] == '_' && s[hi - 1] == '_' {
        hi
    } else {
        last_closing(s, lo, hi - 1)
    }
}

/// Where the placeholder that starts at `at` ends, or -1 where none starts
/// there.
pub open spec fn token_end(s: Seq<char>, at: int) -> int {
    if 0 <= at && at + 1 < s.len() && s[at] == '_' && s[at + 1] == '_' {
        last_closing(s, at + 5, run_end(s, at + 2))
    } else {
        -1
    }
}

/// The placeholders that a scan of `s` from `from` finds, each as the pair of
/// its start and its end, in the order of the text.
pub open spec fn occurrences_from(s: Seq<char>, from: int) -> Seq<(int, int)>
    decreases s.len() - from,
{
    if from < 0 || from >= s.len() {
        Seq::empty()
    } else {
        let end = token_end(s, from);
        if from < end <= s.len() {
            seq![(from, end)] + occurrences_from(s, end)
        } else {
            occurrences_from(s, from + 1)
        }
    }
}

/// The placeholders of `s`.
pub open spec fn occurrences(s: Seq<char>) -> Seq<(int, int)> {
    occurrences_from(s, 0)
}

/// The texts of the spans, cut out of `s`.
pub open spec fn span_texts(s: Seq<char>, spans: Seq<(int, int)>) -> Seq<Seq<char>> {
    spans.map_values(|span: (int, int)| s.subrange(span.0, span.1))
}

/// Whether the spans lie in a text of length `len`, none of them empty, one
/// behind the other, and none before `from`.
pub open spec fn ordered_spans(spans: Seq<(int, int)>, from: int, len: int) -> bool {
    &&& forall|k: int|
        0 <= k < spans.len() ==> from <= (#[trigger] spans[k]).0 < spans[k].1 <= len
    &&& forall|j: int, k: int|
        0 <= j < k < spans.len() ==> (#[trigger] spans[j]).1 <= (#[trigger] spans[k]).0
}

/// The placeholders that a scan finds lie one behind the other, and each is
/// the longest placeholder that starts where it starts.
pub proof fn lemma_occurrences_ordered(s: Seq<char>, from: int)
    requires
        0 <= from,
    ensures
        ordered_spans(occurrences_from(s, from), from, s.len() as int),
        forall|k: int|
            0 <= k < occurrences_from(s, from).len() ==> token_end(
                s,
                (#[trigger] occurrences_from(s, from)[k]).0,
            ) == occurrences_from(s, from)[k].1,
    decreases s.len() - from,
{
    if from < s.len() {
        let end = token_end(s, from);
        let found = occurrences_from(s, from);
        if from < end <= s.len() {
            let rest = occurrences_from(s, end);
            lemma_occurrences_ordered(s, end);
            assert(found == seq![(from, end)] + rest);
            assert forall|k: int| 0 <= k < found.len() implies from <= (#[trigger] found[k]).0
                < found[k].1 <= s.len() && token_end(s, found[k].0) == found[k].1 by {
                if k > 0 {
                    assert(found[k] == rest[k - 1]);
                }
            }
            assert forall|j: int, k: int| 0 <= j < k < found.len() implies (#[trigger] found[j]).1
                <= (#[trigger] found[k]).0 by {
                assert(found[k] == rest[k - 1]);
                if j > 0 {
                    assert(found[j] == rest[j - 1]);
                }
            }
        } else {
            lemma_occurrences_ordered(s, from + 1);
        }
    }
}

/// The scan misses nothing: at a position that lies in none of the
/// placeholders it found, no placeholder starts.
pub proof fn lemma_no_start_between(s: Seq<char>, from: int, at: int)
    requires
        0 <= from <= at < s.len(),
        forall|k: int|
            0 <= k < occurrences_from(s, from).len() ==> !((#[trigger] occurrences_from(
                s,
                from,
            )[k]).0 <= at < occurrences_from(s, from)[k].1),
    ensures
        token_end(s, at) == -1,
    decreases s.len() - from,
{
    let end = token_end(s, from);
    let found = occurrences_from(s, from);
    lemma_token_end(s, from);
    if from < end <= s.len() {
        let rest = occurrences_from(s, end);
        assert(found == seq![(from, end)] + rest);
        assert(found[0] == (from, end));
        assert forall|k: int| 0 <= k < rest.len() implies !((#[trigger] rest[k]).0 <= at
            < rest[k].1) by {
            assert(found[k + 1] == rest[k]);
        }
        lemma_no_start_between(s, end, at);
    } else if from < at {
        lemma_no_start_between(s, from + 1, at);
    }
}

/// A stretch of a text: the characters from `start` up to `end`.
#[derive(Clone, Copy, Debug)]
pub struct Span {
    pub start: usize,
    pub end: usize,
}

impl View for Span {
    type V = (int, int);

    open spec fn view(&self) -> (int, int) {
        (self.start as int, self.end as int)
    }
}

/// The views of the spans, in order.
pub open spec fn span_views(spans: Seq<Span>) -> Seq<(int, int)> {
    spans.map_values(|span: Span| span@)
}

/// Whether `c` is a name character.
pub fn name_char(c: char) -> (name: bool)
    ensures
        name == is_name_char(c),
{
    ('a' <= c && c <= 'z') || ('A' <= c && c <= 'Z') || ('0' <= c && c <= '9') || c == '_' || c
        == '-' || c == '/'
}

proof fn lemma_run_end(s: Seq<char>, from: int)
    requires
        0 <= from <= s.len(),
    ensures
        from <= run_end(s, from) <= s.len(),
        forall|k: int| from <= k < run_end(s, from) ==> is_name_char(#[trigger] s[k]),
        run_end(s, from) < s.len() ==> !is_name_char(s[run_end(s, from)]),
    decreases s.len() - from,
{
    if from < s.len() && is_name_char(s[from]) {
        lemma_run_end(s, from + 1);
    }
}

proof fn lemma_last_closing(s: Seq<char>, lo: int, hi: int)
    ensures
        last_closing(s, lo, hi) == -1 || lo <= last_closing(s, lo, hi) <= hi,
        last_closing(s, lo, hi) != -1 ==> s[last_closing(s, lo, hi) - 2] == '_' && s[last_closing(
            s,
            lo,
            hi,
        ) - 1] == '_',
        forall|e: int|
            lo <= e <= hi && s[e - 2] == '_' && #[trigger] s[e - 1] == '_' ==> e <= last_closing(
                s,
                lo,
                hi,
            ),
    decreases hi - lo + 1,
{
    if hi >= lo && !(s[hi - 2] == '_' && s[hi - 1] == '_') {
        lemma_last_closing(s, lo, hi - 1);
    }
}

/// What `token_end` finds: where a placeholder starts at `at`, the end of
/// the longest one; where none does, -1.
pub proof fn lemma_token_end(s: Seq<char>, at: int)
    requires
        0 <= at <= s.len(),
    ensures
        token_end(s, at) == -1 || (at + 5 <= token_end(s, at) <= s.len() && is_token(
            s.subrange(at, token_end(s, at)),
        )),
        forall|end: int|
            at <= end <= s.len() && is_token(#[trigger] s.subrange(at, end)) ==> end <= token_end(
                s,
                at,
            ),
{
    if at + 1 < s.len() && s[at] == '_' && s[at + 1] == '_' {
        let stop = run_end(s, at + 2);
        lemma_run_end(s, at + 2);
        lemma_last_closing(s, at + 5, stop);
        let found = token_end(s, at);
        if found != -1 {
            let t = s.subrange(at, found);
            assert forall|k: int| 0 <= k < t.len() implies is_name_char(#[trigger] t[k]) by {
                if k >= 2 {
                    assert(is_name_char(s[at + k]));
                }
            }
        }
        assert forall|end: int|
            at <= end <= s.len() && is_token(#[trigger] s.subrange(at, end)) implies end
            <= found by {
            let t = s.subrange(at, end);
            if end > stop {
                assert(is_name_char(t[stop - at]));
                assert(t[stop - at] == s[stop]);
            }
            assert(t[t.len() - 2] == s[end - 2]);
            assert(t[t.len() - 1] == s[end - 1]);
        }
    } else {
        assert forall|end: int|
            at <= end <= s.len() && is_token(#[trigger] s.subrange(at, end)) implies end
            <= token_end(s, at) by {
            let t = s.subrange(at, end);
            assert(t[0] == s[at]);
            assert(t[1] == s[at + 1]);
        }
    }
}

/// Where the placeholder that starts at `at` ends; `None` where none starts
/// there.
pub fn find_token_end(s: &Vec<char>, at: usize) -> (end: Option<usize>)
    requires
        at <= s.len(),
    ensures
        match end {
            Some(e) => token_end(s@, at as int) == e,
            None => token_end(s@, at as int) == -1,
        },
{
    let n: usize = s.len();
    if n - at < 5 || s[at] != '_' || s[at + 1] != '_' {
        proof {
            lemma_token_end(s@, at as int);
        }
        return None;
    }
    let mut stop: usize = at + 2;
    while stop < n && name_char(s[stop])
        invariant
            at + 2 <= stop <= n,
            n == s.len(),
            run_end(s@, at + 2) == run_end(s@, stop as int),
        decreases n - stop,
    {
        stop += 1;
    }
    assert(run_end(s@, at + 2) == stop);
    if stop < at + 5 {
        return None;
    }
    let mut end: usize = stop;
    while end >= at + 5
        invariant
            at + 4 <= end <= stop <= n,
            at + 5 <= n,
            n == s.len(),
            token_end(s@, at as int) == last_closing(s@, at + 5, end as int),
        decreases end,
    {
        if s[end - 2] == '_' && s[end - 1] == '_' {
            return Some(end);
        }
        end -= 1;
    }
    None
}

/// The placeholders of `s`, in the order of the text.
pub fn find_tokens(s: &Vec<char>) -> (spans: Vec<Span>)
    ensures
        span_views(spans@) == occurrences(s@),
        forall|k: int|
            0 <= k < spans.len() ==> (#[trigger] spans[k]).start < spans[k].end <= s.len(),
        forall|j: int, k: int|
            0 <= j < k < spans.len() ==> (#[trigger] spans[j]).end <= (#[trigger] spans[k]).start,
{
    let mut spans: Vec<Span> = Vec::new();
    let mut at: usize = 0;
    while at < s.len()
        invariant
            at <= s.len(),
            occurrences(s@) == span_views(spans@) + occurrences_from(s@, at as int),
            forall|k: int|
            0 <= k < spans.len() ==> (#[trigger] spans[k]).start < spans[k].end <= s.len(),
        decreases s.len() - at,
    {
        proof {
            lemma_token_end(s@, at as int);
        }
        match find_token_end(s, at) {
            Some(end) => {
                let ghost before = spans@;
                spans.push(Span { start: at, end });
                assert(span_views(spans@) == span_views(before) + seq![(at as int, end as int)]);
                at = end;
            },
            None => {
                at += 1;
            },
        }
    }
    proof {
        lemma_occurrences_ordered(s@, 0);
        assert(span_views(spans@) == occurrences(s@));
        assert forall|j: int, k: int| 0 <= j < k < spans.len() implies (#[trigger] spans[j]).end
            <= (#[trigger] spans[k]).start by {
            assert(span_views(spans@)[j] == spans[j]@);
            assert(span_views(spans@)[k] == spans[k]@);
        }
    }
    spans
}

/// Whether `name` as a whole is a placeholder.
pub fn is_placeholder(name: &str) -> (token: bool)
    ensures
        token == is_token(name@),
{
    let s = chars_of(name);
    proof {
        lemma_token_end(s@, 0);
        assert(s@.subrange(0, s@.len() as int) == s@);
    }
    match find_token_end(&s, 0) {
        Some(end) => end == s.len(),
        None => false,
    }
}

/// The placeholders of `template`, in the order of the text; one that
/// stands there several times is given as often.
pub fn find_placeholders(template: &str) -> (found: Vec<String>)
    ensures
        texts(found@) == span_texts(template@, occurrences(template@)),
{
    let s = chars_of(template);
    let spans = find_tokens(&s);
    let mut found: Vec<String> = Vec::new();
    let mut i: usize = 0;
    while i < spans.len()
        invariant
            i <= spans.len(),
            found.len() == i,
            forall|k: int|
            0 <= k < spans.len() ==> (#[trigger] spans[k]).start < spans[k].end <= s.len(),
            forall|k: int|
                0 <= k < i ==> (#[trigger] found[k])@ == s@.subrange(
                    spans[k].start as int,
                    spans[k].end as int,
                ),
        decreases spans.len() - i,
    {
        found.push(string_of(&s, spans[i].start, spans[i].end));
        i += 1;
    }
    assert(texts(found@) =~= span_texts(s@, span_views(spans@)));
    found
}

} // verus!
