//! The combinators that run two parsers one after the other.

use super::{lemma_suffix_of_suffix, Outcome, Parser};
use std::marker::PhantomData;
use vstd::prelude::*;

verus! {

/// The outcome of a second parser with the value `l` of the first put in
/// front of its value.
pub open spec fn paired<S, T, U, E>(l: T, after: Outcome<S, U, E>) -> Outcome<S, (T, U), E> {
    match after {
        Ok((r, last)) => Ok(((l, r), last)),
        Err(e) => Err(e),
    }
}

/// The meaning of `then`: the failure of `first`; or after a success of
/// `first` what `second` yields on what `first` left over, with the value of
/// `first` put in front of a value of `second`.
pub open spec fn then_yields<'a, S: 'a, T, U, E, P: Parser<'a, S, T, E>, Q: Parser<'a, S, U, E>>(
    first: P,
    second: Q,
    input: Seq<S>,
    out: Outcome<S, (T, U), E>,
) -> bool {
    ||| exists|e: E| #[trigger] first.yields(input, Err(e)) && out == Err::<((T, U), Seq<S>), E>(e)
    ||| exists|l: T, mid: Seq<S>, after: Outcome<S, U, E>|
        #![trigger first.yields(input, Ok((l, mid))), second.yields(mid, after)]
        {
            &&& first.yields(input, Ok((l, mid)))
            &&& second.yields(mid, after)
            &&& out == paired(l, after)
        }
}

/// The steps behind an outcome of `then`: what `first` yielded, and where
/// that was a success, what `second` yielded after it.
pub proof fn lemma_then_steps<
    'a,
    S: 'a,
    T,
    U,
    E,
    P: Parser<'a, S, T, E>,
    Q: Parser<'a, S, U, E>,
>(first: P, second: Q, input: Seq<S>, out: Outcome<S, (T, U), E>) -> (steps: (
    Outcome<S, T, E>,
    Outcome<S, U, E>,
))
    requires
        then_yields(first, second, input, out),
    ensures
        first.yields(input, steps.0),
        match steps.0 {
            Ok((l, mid)) => second.yields(mid, steps.1) && out == paired(l, steps.1),
            Err(e) => out == Err::<((T, U), Seq<S>), E>(e),
        },
{
    if exists|e: E| #[trigger] first.yields(input, Err(e)) && out == Err::<((T, U), Seq<S>), E>(e) {
        let e = choose|e: E| #[trigger]
            first.yields(input, Err(e)) && out == Err::<((T, U), Seq<S>), E>(e);
        (Err(e), Err(e))
    } else {
        let (l, mid, after) = choose|l: T, mid: Seq<S>, after: Outcome<S, U, E>|
            #![trigger first.yields(input, Ok((l, mid))), second.yields(mid, after)]
            {
                &&& first.yields(input, Ok((l, mid)))
                &&& second.yields(mid, after)
                &&& out == paired(l, after)
            };
        (Ok((l, mid)), after)
    }
}

/// A parser that runs `first` and then `second` on what `first` left over,
/// and yields both values.
pub struct Then<P, Q> {
    pub first: P,
    pub second: Q,
}

impl<'a, STREAM: 'a, T, U, E, P: Parser<'a, STREAM, T, E>, Q: Parser<'a, STREAM, U, E>> Parser<
    'a,
    STREAM,
    (T, U),
    E,
> for Then<P, Q> {
    open spec fn wf(&self) -> bool {
        self.first.wf() && self.second.wf()
    }

    open spec fn yields(&self, input: Seq<STREAM>, out: Outcome<STREAM, (T, U), E>) -> bool {
        then_yields(self.first, self.second, input, out)
    }

    proof fn lemma_rest_is_suffix(&self, input: Seq<STREAM>, out: Outcome<STREAM, (T, U), E>) {
        let (from, after) = lemma_then_steps(self.first, self.second, input, out);
        self.first.lemma_rest_is_suffix(input, from);
        if let (Ok((_, mid)), Ok((_, last))) = (from, after) {
            self.second.lemma_rest_is_suffix(mid, after);
            lemma_suffix_of_suffix(last, mid, input);
        }
    }

    proof fn lemma_yields_one_outcome(
        &self,
        input: Seq<STREAM>,
        out1: Outcome<STREAM, (T, U), E>,
        out2: Outcome<STREAM, (T, U), E>,
    ) {
        let (from1, after1) = lemma_then_steps(self.first, self.second, input, out1);
        let (from2, after2) = lemma_then_steps(self.first, self.second, input, out2);
        self.first.lemma_yields_one_outcome(input, from1, from2);
        if let Ok((_, mid)) = from1 {
            self.second.lemma_yields_one_outcome(mid, after1, after2);
        }
    }

    fn parse(&self, buf: &'a [STREAM]) -> (r: Result<((T, U), &'a [STREAM]), E>) {
        let (l, rest) = self.first.parse(buf)?;
        let (r, last) = self.second.parse(rest)?;
        proof {
            lemma_suffix_of_suffix(last@, rest@, buf@);
        }
        Ok(((l, r), last))
    }
}

/// Makes the parser that runs `first` and then `second` on what `first` left
/// over, and yields both values. This is what the `then` method of a parser
/// returns.
pub fn sequence<
    'a,
    STREAM: 'a,
    T,
    U,
    E,
    P: Parser<'a, STREAM, T, E>,
    Q: Parser<'a, STREAM, U, E>,
>(first: P, second: Q) -> (r: Then<P, Q>)
    ensures
        r.first == first,
        r.second == second,
        r.wf() <==> first.wf() && second.wf(),
        forall|input: Seq<STREAM>, out: Outcome<STREAM, (T, U), E>| #[trigger]
            r.yields(input, out) <==> then_yields(first, second, input, out),
{
    Then { first, second }
}

/// The outcome of a pair with only its second value kept.
pub open spec fn right_of<S, T, U, E>(both: Outcome<S, (T, U), E>) -> Outcome<S, U, E> {
    match both {
        Ok(((_, r), last)) => Ok((r, last)),
        Err(e) => Err(e),
    }
}

/// The outcome of a pair with only its first value kept.
pub open spec fn left_of<S, T, U, E>(both: Outcome<S, (T, U), E>) -> Outcome<S, T, E> {
    match both {
        Ok(((l, _), last)) => Ok((l, last)),
        Err(e) => Err(e),
    }
}

/// The meaning of `then_right`: what `then` yields, with the first value
/// dropped.
pub open spec fn right_yields<'a, S: 'a, T, U, E, P: Parser<'a, S, T, E>, Q: Parser<'a, S, U, E>>(
    first: P,
    second: Q,
    input: Seq<S>,
    out: Outcome<S, U, E>,
) -> bool {
    exists|both: Outcome<S, (T, U), E>| #[trigger]
        then_yields(first, second, input, both) && out == right_of(both)
}

/// The meaning of `then_left`: what `then` yields, with the second value
/// dropped.
pub open spec fn left_yields<'a, S: 'a, T, U, E, P: Parser<'a, S, T, E>, Q: Parser<'a, S, U, E>>(
    first: P,
    second: Q,
    input: Seq<S>,
    out: Outcome<S, T, E>,
) -> bool {
    exists|both: Outcome<S, (T, U), E>| #[trigger]
        then_yields(first, second, input, both) && out == left_of(both)
}

/// A parser that runs two parsers in a row and keeps the second value.
pub struct ThenRight<P, Q, T> {
    pub both: Then<P, Q>,
    pub dropped: PhantomData<T>,
}

impl<'a, STREAM: 'a, T, U, E, P: Parser<'a, STREAM, T, E>, Q: Parser<'a, STREAM, U, E>> Parser<
    'a,
    STREAM,
    U,
    E,
> for ThenRight<P, Q, T> {
    open spec fn wf(&self) -> bool {
        self.both.wf()
    }

    open spec fn yields(&self, input: Seq<STREAM>, out: Outcome<STREAM, U, E>) -> bool {
        right_yields(self.both.first, self.both.second, input, out)
    }

    proof fn lemma_rest_is_suffix(&self, input: Seq<STREAM>, out: Outcome<STREAM, U, E>) {
        let both = choose|both: Outcome<STREAM, (T, U), E>| #[trigger]
            then_yields(self.both.first, self.both.second, input, both) && out == right_of(both);
        self.both.lemma_rest_is_suffix(input, both);
    }

    proof fn lemma_yields_one_outcome(
        &self,
        input: Seq<STREAM>,
        out1: Outcome<STREAM, U, E>,
        out2: Outcome<STREAM, U, E>,
    ) {
        let both1 = choose|both: Outcome<STREAM, (T, U), E>| #[trigger]
            then_yields(self.both.first, self.both.second, input, both) && out1 == right_of(both);
        let both2 = choose|both: Outcome<STREAM, (T, U), E>| #[trigger]
            then_yields(self.both.first, self.both.second, input, both) && out2 == right_of(both);
        self.both.lemma_yields_one_outcome(input, both1, both2);
    }

    fn parse(&self, buf: &'a [STREAM]) -> (r: Result<(U, &'a [STREAM]), E>) {
        let ((_, r), rest) = self.both.parse(buf)?;
        Ok((r, rest))
    }
}

/// A parser that runs two parsers in a row and keeps the first value.
pub struct ThenLeft<P, Q, U> {
    pub both: Then<P, Q>,
    pub dropped: PhantomData<U>,
}

impl<'a, STREAM: 'a, T, U, E, P: Parser<'a, STREAM, T, E>, Q: Parser<'a, STREAM, U, E>> Parser<
    'a,
    STREAM,
    T,
    E,
> for ThenLeft<P, Q, U> {
    open spec fn wf(&self) -> bool {
        self.both.wf()
    }

    open spec fn yields(&self, input: Seq<STREAM>, out: Outcome<STREAM, T, E>) -> bool {
        left_yields(self.both.first, self.both.second, input, out)
    }

    proof fn lemma_rest_is_suffix(&self, input: Seq<STREAM>, out: Outcome<STREAM, T, E>) {
        let both = choose|both: Outcome<STREAM, (T, U), E>| #[trigger]
            then_yields(self.both.first, self.both.second, input, both) && out == left_of(both);
        self.both.lemma_rest_is_suffix(input, both);
    }

    proof fn lemma_yields_one_outcome(
        &self,
        input: Seq<STREAM>,
        out1: Outcome<STREAM, T, E>,
        out2: Outcome<STREAM, T, E>,
    ) {
        let both1 = choose|both: Outcome<STREAM, (T, U), E>| #[trigger]
            then_yields(self.both.first, self.both.second, input, both) && out1 == left_of(both);
        let both2 = choose|both: Outcome<STREAM, (T, U), E>| #[trigger]
            then_yields(self.both.first, self.both.second, input, both) && out2 == left_of(both);
        self.both.lemma_yields_one_outcome(input, both1, both2);
    }

    fn parse(&self, buf: &'a [STREAM]) -> (r: Result<(T, &'a [STREAM]), E>) {
        let ((l, _), rest) = self.both.parse(buf)?;
        Ok((l, rest))
    }
}

} // verus!
