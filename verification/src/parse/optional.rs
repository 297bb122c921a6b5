//! The combinator that turns failure into the absence of a value.

use super::{Outcome, Parser};
use vstd::prelude::*;

verus! {

/// What `optional` makes of an outcome of the parser it wraps: a success with
/// its value marked present, and in place of a failure a success without a
/// value that leaves the whole input.
pub open spec fn optional_of<S, T, E>(from: Outcome<S, T, E>, input: Seq<S>) -> Outcome<
    S,
    Option<T>,
    E,
> {
    match from {
        Ok((v, rest)) => Ok((Some(v), rest)),
        Err(_) => Ok((None, input)),
    }
}

/// The meaning of `optional`: `out` is what `optional` makes of an outcome
/// that `inner` yields on `input`.
pub open spec fn optional_yields<'a, S: 'a, T, E, P: Parser<'a, S, T, E>>(
    inner: P,
    input: Seq<S>,
    out: Outcome<S, Option<T>, E>,
) -> bool {
    exists|from: Outcome<S, T, E>| #[trigger] inner.yields(input, from) && out == optional_of(
        from,
        input,
    )
}

/// A parser that never fails: where `inner` fails it yields `None` and
/// consumes nothing.
pub struct Optional<P> {
    pub inner: P,
}

impl<'a, STREAM: 'a, T, E, P: Parser<'a, STREAM, T, E>> Parser<'a, STREAM, Option<T>, E> for Optional<
    P,
> {
    open spec fn wf(&self) -> bool {
        self.inner.wf()
    }

    open spec fn yields(&self, input: Seq<STREAM>, out: Outcome<STREAM, Option<T>, E>) -> bool {
        optional_yields(self.inner, input, out)
    }

    proof fn lemma_rest_is_suffix(&self, input: Seq<STREAM>, out: Outcome<STREAM, Option<T>, E>) {
        let from = choose|from: Outcome<STREAM, T, E>| #[trigger]
            self.inner.yields(input, from) && out == optional_of(from, input);
        self.inner.lemma_rest_is_suffix(input, from);
    }

    proof fn lemma_yields_one_outcome(
        &self,
        input: Seq<STREAM>,
        out1: Outcome<STREAM, Option<T>, E>,
        out2: Outcome<STREAM, Option<T>, E>,
    ) {
        let from1 = choose|from: Outcome<STREAM, T, E>| #[trigger]
            self.inner.yields(input, from) && out1 == optional_of(from, input);
        let from2 = choose|from: Outcome<STREAM, T, E>| #[trigger]
            self.inner.yields(input, from) && out2 == optional_of(from, input);
        self.inner.lemma_yields_one_outcome(input, from1, from2);
    }

    fn parse(&self, buf: &'a [STREAM]) -> (r: Result<(Option<T>, &'a [STREAM]), E>)
        ensures
            r is Ok,
    {
        match self.inner.parse(buf) {
            Ok((res, rest)) => Ok((Some(res), rest)),
            Err(_) => Ok((None, buf)),
        }
    }
}

} // verus!
