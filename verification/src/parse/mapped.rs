//! The combinator that applies a function to the value of a parser.

use super::function::is_function;
use super::{Outcome, Parser};
use std::marker::PhantomData;
use vstd::prelude::*;

verus! {

/// `out` is `from` with `f` applied to its value: a success with what `f`
/// returns for the value and with the same rest, or the same failure.
pub open spec fn maps_to<S, T, U, E, F: Fn(T) -> U>(
    f: F,
    from: Outcome<S, T, E>,
    out: Outcome<S, U, E>,
) -> bool {
    match from {
        Ok((v, rest)) => out matches Ok((u, after)) && after == rest && call_ensures(f, (v,), u),
        Err(e) => out matches Err(same) && same == e,
    }
}

/// The meaning of `map`: `out` is an outcome that `inner` yields on `input`,
/// with `f` applied to its value.
pub open spec fn mapped_yields<'a, S: 'a, T, U, E, P: Parser<'a, S, T, E>, F: Fn(T) -> U>(
    inner: P,
    f: F,
    input: Seq<S>,
    out: Outcome<S, U, E>,
) -> bool {
    exists|from: Outcome<S, T, E>| #[trigger] inner.yields(input, from) && maps_to(f, from, out)
}

/// A parser that runs `inner` and applies `f` to its value.
pub struct Mapped<P, F, T> {
    pub inner: P,
    pub f: F,
    pub from: PhantomData<T>,
}

impl<'a, STREAM: 'a, T, U, E, P: Parser<'a, STREAM, T, E>, F: Fn(T) -> U> Parser<
    'a,
    STREAM,
    U,
    E,
> for Mapped<P, F, T> {
    open spec fn wf(&self) -> bool {
        self.inner.wf() && is_function(self.f)
    }

    open spec fn yields(&self, input: Seq<STREAM>, out: Outcome<STREAM, U, E>) -> bool {
        mapped_yields(self.inner, self.f, input, out)
    }

    proof fn lemma_rest_is_suffix(&self, input: Seq<STREAM>, out: Outcome<STREAM, U, E>) {
        let from = choose|from: Outcome<STREAM, T, E>| #[trigger]
            self.inner.yields(input, from) && maps_to(self.f, from, out);
        self.inner.lemma_rest_is_suffix(input, from);
    }

    proof fn lemma_yields_one_outcome(
        &self,
        input: Seq<STREAM>,
        out1: Outcome<STREAM, U, E>,
        out2: Outcome<STREAM, U, E>,
    ) {
        let from1 = choose|from: Outcome<STREAM, T, E>| #[trigger]
            self.inner.yields(input, from) && maps_to(self.f, from, out1);
        let from2 = choose|from: Outcome<STREAM, T, E>| #[trigger]
            self.inner.yields(input, from) && maps_to(self.f, from, out2);
        self.inner.lemma_yields_one_outcome(input, from1, from2);
    }

    fn parse(&self, buf: &'a [STREAM]) -> (r: Result<(U, &'a [STREAM]), E>) {
        let (res, rest) = self.inner.parse(buf)?;
        Ok(((self.f)(res), rest))
    }
}

} // verus!
