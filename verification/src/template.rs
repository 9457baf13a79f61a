//! Resolution of a prompt template.
//!
//! The template is scanned once for placeholders. Each placeholder that the
//! store has candidates for is replaced by one of them, drawn anew for every
//! occurrence; every other placeholder, and all the text in between, stays
//! as it is. What was put in is not scanned again.

use vstd::prelude::*;
use crate::placeholder::{
    find_tokens, is_token, lemma_occurrences_ordered, lemma_token_end, occurrences, occurrences_from, span_views, Span,
};
use crate::random::{draw_below, lemma_draw_in_range, next_state, RandomSource};
use crate::text::{chars_of, push_range, string_of, texts};
use crate::variables::VariableStore;

verus! {

/// The mapping from placeholders to their candidates, as a store shows it.
pub type Variables = Map<Seq<char>, Seq<Seq<char>>>;

/// Whether the store has at least one candidate for `token`.
pub open spec fn resolvable(variables: Variables, token: Seq<char>) -> bool {
    variables.contains_key(token) && variables[token].len() > 0
}

/// What stands in place of `token` when the source is in state `state`: the
/// candidate that the source draws, or the token itself where it has none.
pub open spec fn piece(variables: Variables, token: Seq<char>, state: u64) -> Seq<char> {
    if resolvable(variables, token) {
        variables[token][draw_below(state, variables[token].len() as int)]
    } else {
        token
    }
}

/// The text of the `k`-th span.
pub open spec fn token_at(s: Seq<char>, spans: Seq<(int, int)>, k: int) -> Seq<char> {
    s.subrange(spans[k].0, spans[k].1)
}

/// The state of the source when the first `k` spans have been handled: it
/// has moved on once for each of them that was resolvable.
pub open spec fn state_before(
    s: Seq<char>,
    spans: Seq<(int, int)>,
    variables: Variables,
    seed: u64,
    k: int,
) -> u64
    decreases k,
{
    if k <= 0 {
        seed
    } else {
        let state = state_before(s, spans, variables, seed, k - 1);
        if resolvable(variables, token_at(s, spans, k - 1)) {
            next_state(state)
        } else {
            state
        }
    }
}

/// What stands in place of the `k`-th span.
pub open spec fn piece_at(
    s: Seq<char>,
    spans: Seq<(int, int)>,
    variables: Variables,
    seed: u64,
    k: int,
) -> Seq<char> {
    piece(variables, token_at(s, spans, k), state_before(s, spans, variables, seed, k))
}

/// Where the text before the `k`-th span starts: at the end of the span
/// before it.
pub open spec fn gap_start(spans: Seq<(int, int)>, k: int) -> int {
    if k <= 0 {
        0
    } else {
        spans[k - 1].1
    }
}

/// The output as far as the first `k` spans go: for each of them the text
/// that stands before it, then its piece.
pub open spec fn woven(
    s: Seq<char>,
    spans: Seq<(int, int)>,
    variables: Variables,
    seed: u64,
    k: int,
) -> Seq<char>
    decreases k,
{
    if k <= 0 {
        Seq::empty()
    } else {
        woven(s, spans, variables, seed, k - 1) + s.subrange(
            gap_start(spans, k - 1),
            spans[k - 1].0,
        ) + piece_at(s, spans, variables, seed, k - 1)
    }
}

/// The resolved template: the pieces of its placeholders, woven into the
/// text around them.
pub open spec fn resolved(s: Seq<char>, variables: Variables, seed: u64) -> Seq<char> {
    let spans = occurrences(s);
    woven(s, spans, variables, seed, spans.len() as int) + s.subrange(
        gap_start(spans, spans.len() as int),
        s.len() as int,
    )
}

/// The state in which resolving `s` leaves a source that started at `seed`.
pub open spec fn state_after(s: Seq<char>, variables: Variables, seed: u64) -> u64 {
    state_before(s, occurrences(s), variables, seed, occurrences(s).len() as int)
}

/// Where in the resolved template the piece of the `k`-th placeholder
/// starts.
pub open spec fn piece_offset(s: Seq<char>, variables: Variables, seed: u64, k: int) -> int {
    let spans = occurrences(s);
    woven(s, spans, variables, seed, k).len() + spans[k].0 - gap_start(spans, k)
}

/// Resolves `template`: each placeholder that `variables` has candidates for
/// gives way to one of them, drawn from `source`; all else stays.
pub fn resolve(template: &str, variables: &VariableStore, source: &mut RandomSource) -> (prompt:
    String)
    requires
        variables.wf(),
    ensures
        prompt@ == resolved(template@, variables@, old(source)@),
        final(source)@ == state_after(template@, variables@, old(source)@),
{
    let s = chars_of(template);
    let spans = find_tokens(&s);
    let ghost marks = span_views(spans@);
    let ghost seed = source@;
    let mut out: Vec<char> = Vec::new();
    let mut done: usize = 0;
    let mut k: usize = 0;
    while k < spans.len()
        invariant
            k <= spans.len(),
            variables.wf(),
            marks == span_views(spans@),
            forall|i: int|
                0 <= i < spans.len() ==> (#[trigger] spans[i]).start < spans[i].end <= s.len(),
            forall|i: int, j: int|
                0 <= i < j < spans.len() ==> (#[trigger] spans[i]).end <= (
                #[trigger] spans[j]).start,
            done == gap_start(marks, k as int),
            done <= s.len(),
            out@ == woven(s@, marks, variables@, seed, k as int),
            source@ == state_before(s@, marks, variables@, seed, k as int),
        decreases spans.len() - k,
    {
        let span: Span = spans[k];
        proof {
            assert(marks[k as int] == span@);
            if k > 0 {
                assert(marks[k - 1] == spans[k - 1]@);
                assert(spans[k - 1].end <= spans[k as int].start);
            }
        }
        push_range(&mut out, &s, done, span.start);
        let token = string_of(&s, span.start, span.end);
        assert(token@ == token_at(s@, marks, k as int));
        let mut replaced = false;
        match variables.lookup(&token) {
            Some(values) => {
                if values.len() > 0 {
                    let at = source.below(values.len());
                    let candidate = chars_of(values[at].as_str());
                    push_range(&mut out, &candidate, 0, candidate.len());
                    replaced = true;
                    proof {
                        assert(candidate@.subrange(0, candidate@.len() as int) == candidate@);
                        assert(texts(values@)[at as int] == values@[at as int]@);
                    }
                }
            },
            None => {},
        }
        if !replaced {
            push_range(&mut out, &s, span.start, span.end);
        }
        done = span.end;
        k += 1;
    }
    push_range(&mut out, &s, done, s.len());
    string_of(&out, 0, out.len())
}

proof fn lemma_plain_has_no_occurrences(s: Seq<char>, from: int)
    requires
        0 <= from,
        forall|a: int, e: int| 0 <= a <= e <= s.len() ==> !is_token(#[trigger] s.subrange(a, e)),
    ensures
        occurrences_from(s, from).len() == 0,
    decreases s.len() - from,
{
    if from < s.len() {
        lemma_token_end(s, from);
        lemma_plain_has_no_occurrences(s, from + 1);
    }
}

/// A template that holds no placeholder resolves to itself, whatever the
/// store holds, and draws nothing from the source.
pub proof fn lemma_plain_template_unchanged(s: Seq<char>, variables: Variables, seed: u64)
    requires
        forall|a: int, e: int| 0 <= a <= e <= s.len() ==> !is_token(#[trigger] s.subrange(a, e)),
    ensures
        resolved(s, variables, seed) == s,
        state_after(s, variables, seed) == seed,
{
    lemma_plain_has_no_occurrences(s, 0);
    assert(s.subrange(0, s.len() as int) == s);
}

/// The output grows span by span: what the first `k` spans gave stands at
/// the start of what the first `m` spans give.
proof fn lemma_woven_grows(
    s: Seq<char>,
    spans: Seq<(int, int)>,
    variables: Variables,
    seed: u64,
    k: int,
    m: int,
)
    requires
        0 <= k <= m <= spans.len(),
    ensures
        woven(s, spans, variables, seed, k).len() <= woven(s, spans, variables, seed, m).len(),
        woven(s, spans, variables, seed, m).subrange(
            0,
            woven(s, spans, variables, seed, k).len() as int,
        ) == woven(s, spans, variables, seed, k),
    decreases m - k,
{
    if k < m {
        lemma_woven_grows(s, spans, variables, seed, k, m - 1);
    }
}

/// The piece of each placeholder stands in the resolved template, at its
/// offset, and the text that stood before the placeholder stands before it.
pub proof fn lemma_piece_stands(s: Seq<char>, variables: Variables, seed: u64, k: int)
    requires
        0 <= k < occurrences(s).len(),
    ensures
        ({
            let spans = occurrences(s);
            let out = resolved(s, variables, seed);
            let gap = s.subrange(gap_start(spans, k), spans[k].0);
            let at = piece_offset(s, variables, seed, k);
            let put = piece_at(s, spans, variables, seed, k);
            &&& gap.len() <= at
            &&& at + put.len() <= out.len()
            &&& out.subrange(at - gap.len(), at) == gap
            &&& out.subrange(at, at + put.len()) == put
        }),
{
    let spans = occurrences(s);
    lemma_occurrences_ordered(s, 0);
    if k > 0 {
        assert(spans[k - 1].1 <= spans[k].0);
    }
    lemma_woven_grows(s, spans, variables, seed, k + 1, spans.len() as int);
    let whole = woven(s, spans, variables, seed, spans.len() as int);
    let upto = woven(s, spans, variables, seed, k + 1);
    let before = woven(s, spans, variables, seed, k);
    let gap = s.subrange(gap_start(spans, k), spans[k].0);
    let put = piece_at(s, spans, variables, seed, k);
    let out = resolved(s, variables, seed);
    let at = piece_offset(s, variables, seed, k);
    assert(upto == before + gap + put);
    assert(whole.subrange(0, upto.len() as int) == upto);
    assert(out.subrange(0, upto.len() as int) == upto);
    assert(out.subrange(at - gap.len(), at) == gap) by {
        assert forall|i: int| 0 <= i < gap.len() implies out.subrange(at - gap.len(), at)[i]
            == gap[i] by {
            assert(out[at - gap.len() + i] == out.subrange(0, upto.len() as int)[at - gap.len()
                + i]);
        }
    }
    assert(out.subrange(at, at + put.len()) == put) by {
        assert forall|i: int| 0 <= i < put.len() implies out.subrange(at, at + put.len())[i]
            == put[i] by {
            assert(out[at + i] == out.subrange(0, upto.len() as int)[at + i]);
        }
    }
}

/// A placeholder that the store has candidates for gives way to one of
/// them: the text that stands in its place is a candidate of it.
pub proof fn lemma_resolvable_gives_candidate(
    s: Seq<char>,
    variables: Variables,
    seed: u64,
    k: int,
)
    requires
        0 <= k < occurrences(s).len(),
        resolvable(variables, token_at(s, occurrences(s), k)),
    ensures
        ({
            let token = token_at(s, occurrences(s), k);
            let at = piece_offset(s, variables, seed, k);
            let out = resolved(s, variables, seed);
            exists|c: int|
                0 <= c < variables[token].len() && at + variables[token][c].len() <= out.len()
                    && out.subrange(at, at + variables[token][c].len())
                    == #[trigger] variables[token][c]
        }),
{
    let spans = occurrences(s);
    let token = token_at(s, spans, k);
    let state = state_before(s, spans, variables, seed, k);
    let c = draw_below(state, variables[token].len() as int);
    lemma_draw_in_range(state, variables[token].len() as int);
    lemma_piece_stands(s, variables, seed, k);
    assert(piece_at(s, spans, variables, seed, k) == variables[token][c]);
}

/// A placeholder that the store does not know, or knows without
/// candidates, stays: it stands in the resolved template letter for letter.
pub proof fn lemma_unresolvable_stays(s: Seq<char>, variables: Variables, seed: u64, k: int)
    requires
        0 <= k < occurrences(s).len(),
        !resolvable(variables, token_at(s, occurrences(s), k)),
    ensures
        ({
            let token = token_at(s, occurrences(s), k);
            let at = piece_offset(s, variables, seed, k);
            let out = resolved(s, variables, seed);
            at + token.len() <= out.len() && out.subrange(at, at + token.len()) == token
        }),
{
    lemma_piece_stands(s, variables, seed, k);
}

/// What follows the last placeholder stands at the end of the resolved
/// template.
pub proof fn lemma_tail_stands(s: Seq<char>, variables: Variables, seed: u64)
    ensures
        ({
            let spans = occurrences(s);
            let out = resolved(s, variables, seed);
            let tail = s.subrange(gap_start(spans, spans.len() as int), s.len() as int);
            tail.len() <= out.len() && out.subrange(out.len() - tail.len(), out.len() as int)
                == tail
        }),
{
    let spans = occurrences(s);
    lemma_occurrences_ordered(s, 0);
    let out = resolved(s, variables, seed);
    let tail = s.subrange(gap_start(spans, spans.len() as int), s.len() as int);
    assert(out.subrange(out.len() - tail.len(), out.len() as int) =~= tail);
}


/// A placeholder that the store has candidates for does not stay, unless it
/// is its own candidate: what stands in its place is not the placeholder.
pub proof fn lemma_resolvable_is_replaced(
    s: Seq<char>,
    variables: Variables,
    seed: u64,
    k: int,
)
    requires
        0 <= k < occurrences(s).len(),
        resolvable(variables, token_at(s, occurrences(s), k)),
        !variables[token_at(s, occurrences(s), k)].contains(token_at(s, occurrences(s), k)),
    ensures
        piece_at(s, occurrences(s), variables, seed, k) != token_at(s, occurrences(s), k),
        variables[token_at(s, occurrences(s), k)].contains(
            piece_at(s, occurrences(s), variables, seed, k),
        ),
{
    let spans = occurrences(s);
    let token = token_at(s, spans, k);
    let state = state_before(s, spans, variables, seed, k);
    lemma_draw_in_range(state, variables[token].len() as int);
}


} // verus!
