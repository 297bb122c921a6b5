//! The combinator that lets the value of one parser select the next parser.

use super::{lemma_suffix_of_suffix, Outcome, Parser};
use std::marker::PhantomData;
use vstd::prelude::*;

verus! {

/// The meaning of `flat_map`: a failure of `inner`, or after a success of
/// `inner` whatever the parser that `f` returns for the value yields on what
/// `inner` left over.
pub open spec fn flat_mapped_yields<
    'a,
    S: 'a,
    T,
    U,
    E,
    P: Parser<'a, S, T, E>,
    Q: Parser<'a, S, U, E>,
    F: Fn(T) -> Q,
>(inner: P, f: F, input: Seq<S>, out: Outcome<S, U, E>) -> bool {
    ||| exists|e: E| #[trigger] inner.yields(input, Err(e)) && out == Err::<(U, Seq<S>), E>(e)
    ||| exists|v: T, mid: Seq<S>, selected: Q|
        #![trigger inner.yields(input, Ok((v, mid))), call_ensures(f, (v,), selected)]
        {
            &&& inner.yields(input, Ok((v, mid)))
            &&& call_ensures(f, (v,), selected)
            &&& selected.yields(mid, out)
        }
}

/// `f` selects parsers as a function would. It may be called on every value,
/// every parser it returns is well formed, and the parsers that its contract
/// admits for one value yield the same outcome on each input. Nothing is asked
/// of which parser value comes back: two parsers that yield alike are as good
/// as one.
pub open spec fn is_selector<
    'a,
    S: 'a,
    T,
    U,
    E,
    Q: Parser<'a, S, U, E>,
    F: Fn(T) -> Q,
>(f: F) -> bool {
    &&& forall|v: T| #[trigger] call_requires(f, (v,))
    &&& forall|v: T, selected: Q| #[trigger] call_ensures(f, (v,), selected) ==> selected.wf()
    &&& forall|
        v: T,
        one: Q,
        other: Q,
        input: Seq<S>,
        out1: Outcome<S, U, E>,
        out2: Outcome<S, U, E>,
    |
        #![trigger call_ensures(f, (v,), one), call_ensures(f, (v,), other), one.yields(input, out1), other.yields(input, out2)]
        {
            &&& call_ensures(f, (v,), one)
            &&& call_ensures(f, (v,), other)
            &&& one.yields(input, out1)
            &&& other.yields(input, out2)
        } ==> out1 == out2
}

/// The steps behind an outcome of `flat_map`: what `inner` yielded, and where
/// that was a success, the parser that `f` returned for the value and that
/// yielded the outcome.
pub proof fn lemma_flat_mapped_steps<
    'a,
    S: 'a,
    T,
    U,
    E,
    P: Parser<'a, S, T, E>,
    Q: Parser<'a, S, U, E>,
    F: Fn(T) -> Q,
>(inner: P, f: F, input: Seq<S>, out: Outcome<S, U, E>) -> (steps: (Outcome<S, T, E>, Q))
    requires
        flat_mapped_yields(inner, f, input, out),
    ensures
        inner.yields(input, steps.0),
        match steps.0 {
            Ok((v, mid)) => call_ensures(f, (v,), steps.1) && steps.1.yields(mid, out),
            Err(e) => out == Err::<(U, Seq<S>), E>(e),
        },
{
    if exists|e: E| #[trigger] inner.yields(input, Err(e)) && out == Err::<(U, Seq<S>), E>(e) {
        let e = choose|e: E| #[trigger]
            inner.yields(input, Err(e)) && out == Err::<(U, Seq<S>), E>(e);
        (Err(e), arbitrary())
    } else {
        let (v, mid, selected) = choose|v: T, mid: Seq<S>, selected: Q|
            #![trigger inner.yields(input, Ok((v, mid))), call_ensures(f, (v,), selected)]
            {
                &&& inner.yields(input, Ok((v, mid)))
                &&& call_ensures(f, (v,), selected)
                &&& selected.yields(mid, out)
            };
        (Ok((v, mid)), selected)
    }
}

/// A parser that runs `inner`, lets `f` select a second parser by the value,
/// and runs that parser on what `inner` left over.
pub struct FlatMapped<P, F, T> {
    pub inner: P,
    pub f: F,
    pub from: PhantomData<T>,
}

impl<
    'a,
    STREAM: 'a,
    T,
    U,
    E,
    P: Parser<'a, STREAM, T, E>,
    Q: Parser<'a, STREAM, U, E>,
    F: Fn(T) -> Q,
> Parser<'a, STREAM, U, E> for FlatMapped<P, F, T> {
    open spec fn wf(&self) -> bool {
        self.inner.wf() && is_selector::<STREAM, T, U, E, Q, F>(self.f)
    }

    open spec fn yields(&self, input: Seq<STREAM>, out: Outcome<STREAM, U, E>) -> bool {
        flat_mapped_yields(self.inner, self.f, input, out)
    }

    proof fn lemma_rest_is_suffix(&self, input: Seq<STREAM>, out: Outcome<STREAM, U, E>) {
        let (from, selected) = lemma_flat_mapped_steps(self.inner, self.f, input, out);
        self.inner.lemma_rest_is_suffix(input, from);
        if let (Ok((_, mid)), Ok((_, last))) = (from, out) {
            selected.lemma_rest_is_suffix(mid, out);
            lemma_suffix_of_suffix(last, mid, input);
        }
    }

    proof fn lemma_yields_one_outcome(
        &self,
        input: Seq<STREAM>,
        out1: Outcome<STREAM, U, E>,
        out2: Outcome<STREAM, U, E>,
    ) {
        let (from1, selected1) = lemma_flat_mapped_steps(self.inner, self.f, input, out1);
        let (from2, selected2) = lemma_flat_mapped_steps(self.inner, self.f, input, out2);
        self.inner.lemma_yields_one_outcome(input, from1, from2);
        if let Ok((v, mid)) = from1 {
            assert(call_ensures(self.f, (v,), selected1) && call_ensures(self.f, (v,), selected2)
                && selected1.yields(mid, out1) && selected2.yields(mid, out2));
        }
    }

    fn parse(&self, buf: &'a [STREAM]) -> (r: Result<(U, &'a [STREAM]), E>) {
        let (res, rest) = self.inner.parse(buf)?;
        let selected = (self.f)(res);
        let r = selected.parse(rest);
        proof {
            if let Ok((_, last)) = r {
                lemma_suffix_of_suffix(last@, rest@, buf@);
            }
        }
        r
    }
}

} // verus!
