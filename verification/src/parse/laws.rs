//! What holds of every parser and of the combinators.

use super::flat_mapped::FlatMapped;
use super::mapped::Mapped;
use super::optional::Optional;
use super::sequenced::{left_of, paired, right_of, then_yields, Then, ThenLeft, ThenRight};
use super::{lemma_suffix_of_suffix, outcome_of, Outcome, Parser};
use vstd::prelude::*;

verus! {

/// What a successful parse leaves over is a suffix of its input, so the number
/// of elements consumed is never negative.
pub proof fn lemma_rest_is_suffix_of_input<'a, S: 'a, T, E, P: Parser<'a, S, T, E>>(
    p: P,
    input: Seq<S>,
    v: T,
    rest: Seq<S>,
)
    requires
        p.wf(),
        p.yields(input, Ok((v, rest))),
    ensures
        rest.is_suffix_of(input),
        input.len() - rest.len() >= 0,
{
    p.lemma_rest_is_suffix(input, Ok((v, rest)));
}

/// Parsing is deterministic: whatever two calls of `parse` on one parser and
/// one input return, they return the same.
pub proof fn lemma_parse_is_deterministic<'a, S: 'a, T, E, P: Parser<'a, S, T, E>>(
    p: &P,
    buf: &'a [S],
    r1: Result<(T, &'a [S]), E>,
    r2: Result<(T, &'a [S]), E>,
)
    requires
        p.wf(),
        call_ensures(P::parse, (p, buf), r1),
        call_ensures(P::parse, (p, buf), r2),
    ensures
        r1 == r2,
{
    p.lemma_yields_one_outcome(buf@, outcome_of(r1), outcome_of(r2));
    if let (Ok((_, rest1)), Ok((_, rest2))) = (r1, r2) {
        assert(rest1 =~= rest2);
    }
}

/// `optional` never fails. Where the parser it wraps fails, it succeeds
/// without a value and leaves the whole input, and where that parser succeeds,
/// it succeeds with the same value and rest.
pub proof fn lemma_optional_never_fails<'a, S: 'a, T, E, P: Parser<'a, S, T, E>>(
    p: P,
    optional: Optional<P>,
    input: Seq<S>,
)
    requires
        optional.inner == p,
    ensures
        forall|out: Outcome<S, Option<T>, E>| #[trigger] optional.yields(input, out) ==> out is Ok,
        forall|e: E| #[trigger]
            p.yields(input, Err(e)) ==> optional.yields(input, Ok((None, input))),
        forall|v: T, rest: Seq<S>| #[trigger]
            p.yields(input, Ok((v, rest))) ==> optional.yields(input, Ok((Some(v), rest))),
{
}

/// `map` changes the value and nothing else. Where the inner parser succeeds,
/// the mapped parser succeeds with what `f` returns for the value and with
/// the same rest, and where the inner parser fails, the mapped parser fails
/// with the same error.
pub proof fn lemma_map_preserves_consumption<
    'a,
    S: 'a,
    T,
    U,
    E,
    P: Parser<'a, S, T, E>,
    F: Fn(T) -> U,
>(p: P, f: F, mapped: Mapped<P, F, T>, input: Seq<S>)
    requires
        mapped.inner == p,
        mapped.f == f,
    ensures
        forall|v: T, rest: Seq<S>, u: U| #[trigger]
            p.yields(input, Ok((v, rest))) && #[trigger] call_ensures(f, (v,), u)
                ==> mapped.yields(input, Ok((u, rest))),
        forall|e: E| #[trigger] p.yields(input, Err(e)) ==> mapped.yields(input, Err(e)),
{
}

/// `then` runs its parsers in a row and does not give back what the first
/// consumed. Where the first fails, the pair fails with its error. Where the
/// second fails after a success of the first, the pair fails with the error of
/// the second. Where both succeed, the pair succeeds with both values and the
/// rest that the second left.
pub proof fn lemma_then_runs_in_a_row<
    'a,
    S: 'a,
    T,
    U,
    E,
    P: Parser<'a, S, T, E>,
    Q: Parser<'a, S, U, E>,
>(p: P, q: Q, then: Then<P, Q>, input: Seq<S>)
    requires
        then.first == p,
        then.second == q,
    ensures
        forall|e: E| #[trigger] p.yields(input, Err(e)) ==> then.yields(input, Err(e)),
        forall|l: T, mid: Seq<S>, e: E| #[trigger]
            p.yields(input, Ok((l, mid))) && #[trigger] q.yields(mid, Err(e)) ==> then.yields(
                input,
                Err(e),
            ),
        forall|l: T, mid: Seq<S>, r: U, last: Seq<S>| #[trigger]
            p.yields(input, Ok((l, mid))) && #[trigger] q.yields(mid, Ok((r, last)))
                ==> then.yields(input, Ok(((l, r), last))),
{
    assert forall|l: T, mid: Seq<S>, e: E| #[trigger]
        p.yields(input, Ok((l, mid))) && #[trigger] q.yields(mid, Err(e)) implies then.yields(
        input,
        Err(e),
    ) by {
        assert(paired(l, Err::<(U, Seq<S>), E>(e)) == Err::<((T, U), Seq<S>), E>(e));
    }
    assert forall|l: T, mid: Seq<S>, r: U, last: Seq<S>| #[trigger]
        p.yields(input, Ok((l, mid))) && #[trigger] q.yields(mid, Ok((r, last))) implies then.yields(
        input,
        Ok(((l, r), last)),
    ) by {
        assert(paired(l, Ok::<(U, Seq<S>), E>((r, last))) == Ok::<((T, U), Seq<S>), E>(
            ((l, r), last),
        ));
    }
}

/// Where both parsers of a pair succeed in a row, that is the one outcome of
/// the pair. Its rest is a suffix of the input, and the pair consumes what
/// the two consume together.
pub proof fn lemma_then_consumes_both<
    'a,
    S: 'a,
    T,
    U,
    E,
    P: Parser<'a, S, T, E>,
    Q: Parser<'a, S, U, E>,
>(
    p: P,
    q: Q,
    then: Then<P, Q>,
    input: Seq<S>,
    l: T,
    mid: Seq<S>,
    r: U,
    last: Seq<S>,
    out: Outcome<S, (T, U), E>,
)
    requires
        then.first == p,
        then.second == q,
        p.wf(),
        q.wf(),
        p.yields(input, Ok((l, mid))),
        q.yields(mid, Ok((r, last))),
        then.yields(input, out),
    ensures
        out == Ok::<((T, U), Seq<S>), E>(((l, r), last)),
        last.is_suffix_of(input),
        last.len() <= mid.len() <= input.len(),
        input.len() - last.len() == (input.len() - mid.len()) + (mid.len() - last.len()),
{
    lemma_then_runs_in_a_row(p, q, then, input);
    then.lemma_yields_one_outcome(input, out, Ok(((l, r), last)));
    p.lemma_rest_is_suffix(input, Ok((l, mid)));
    q.lemma_rest_is_suffix(mid, Ok((r, last)));
    lemma_suffix_of_suffix(last, mid, input);
}

/// A pair is not atomic, and it keeps nothing from one parse to the next.
/// Where the second parser fails after the first succeeded, the error of the
/// second is the one outcome of the pair, however much the first consumed,
/// and the first parser alone still yields what it yielded.
pub proof fn lemma_then_fails_with_second<
    'a,
    S: 'a,
    T,
    U,
    E,
    P: Parser<'a, S, T, E>,
    Q: Parser<'a, S, U, E>,
>(
    p: P,
    q: Q,
    then: Then<P, Q>,
    input: Seq<S>,
    l: T,
    mid: Seq<S>,
    e: E,
    out: Outcome<S, (T, U), E>,
    again: Outcome<S, T, E>,
)
    requires
        then.first == p,
        then.second == q,
        p.wf(),
        q.wf(),
        p.yields(input, Ok((l, mid))),
        q.yields(mid, Err(e)),
        then.yields(input, out),
        p.yields(input, again),
    ensures
        out == Err::<((T, U), Seq<S>), E>(e),
        again == Ok::<(T, Seq<S>), E>((l, mid)),
{
    lemma_then_runs_in_a_row(p, q, then, input);
    then.lemma_yields_one_outcome(input, out, Err(e));
    p.lemma_yields_one_outcome(input, again, Ok((l, mid)));
}

/// `then_right` and `then_left` are `then` with one value dropped: whatever
/// the pair yields, they yield with only the second or only the first value,
/// and they fail where the pair fails, with the same error.
pub proof fn lemma_then_one_sided<
    'a,
    S: 'a,
    T,
    U,
    E,
    P: Parser<'a, S, T, E>,
    Q: Parser<'a, S, U, E>,
>(p: P, q: Q, right: ThenRight<P, Q, T>, left: ThenLeft<P, Q, U>, input: Seq<S>)
    requires
        right.both.first == p,
        right.both.second == q,
        left.both.first == p,
        left.both.second == q,
    ensures
        forall|both: Outcome<S, (T, U), E>| #[trigger]
            then_yields(p, q, input, both) ==> right.yields(input, right_of(both)),
        forall|both: Outcome<S, (T, U), E>| #[trigger]
            then_yields(p, q, input, both) ==> left.yields(input, left_of(both)),
{
}

/// `flat_map` lets the value choose what comes next. Where the inner parser
/// fails, the whole fails with its error. Where it succeeds, the whole yields
/// what the parser that `f` returns for the value yields on the rest.
pub proof fn lemma_flat_map_runs_selected<
    'a,
    S: 'a,
    T,
    U,
    E,
    P: Parser<'a, S, T, E>,
    Q: Parser<'a, S, U, E>,
    F: Fn(T) -> Q,
>(p: P, f: F, flat_mapped: FlatMapped<P, F, T>, input: Seq<S>)
    requires
        flat_mapped.inner == p,
        flat_mapped.f == f,
    ensures
        forall|e: E| #[trigger] p.yields(input, Err(e)) ==> flat_mapped.yields(input, Err(e)),
        forall|v: T, mid: Seq<S>, selected: Q, out: Outcome<S, U, E>|
            #![trigger p.yields(input, Ok((v, mid))), call_ensures(f, (v,), selected), selected.yields(mid, out)]
            p.yields(input, Ok((v, mid))) && call_ensures(f, (v,), selected) && selected.yields(
                mid,
                out,
            ) ==> flat_mapped.yields(input, out),
{
}

} // verus!
