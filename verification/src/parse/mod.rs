//! The parser abstraction and the combinator methods that every parser has.

use self::flat_mapped::{flat_mapped_yields, is_selector};
use self::function::is_function;
use self::mapped::mapped_yields;
use self::optional::optional_yields;
use self::sequenced::{left_yields, right_yields, then_yields};
use std::marker::PhantomData;
use vstd::prelude::*;

pub mod flat_mapped;
pub mod function;
pub mod laws;
pub mod literal;
pub mod mapped;
pub mod optional;
pub mod sequenced;

pub use self::flat_mapped::FlatMapped;
pub use self::literal::match_buf;
pub use self::mapped::Mapped;
pub use self::optional::Optional;
pub use self::sequenced::{sequence, Then, ThenLeft, ThenRight};

verus! {

/// What a parse yields in the model: the value together with the unconsumed
/// rest of the input, or the error.
pub type Outcome<S, T, E> = Result<(T, Seq<S>), E>;

/// The model of what an executable parse returned: the same value or error,
/// with the remaining slice replaced by the sequence it holds.
pub open spec fn outcome_of<'a, S, T, E>(r: Result<(T, &'a [S]), E>) -> Outcome<S, T, E> {
    match r {
        Ok((v, rest)) => Ok((v, rest@)),
        Err(e) => Err(e),
    }
}

/// A suffix of a suffix is a suffix.
pub proof fn lemma_suffix_of_suffix<S>(a: Seq<S>, b: Seq<S>, c: Seq<S>)
    requires
        a.is_suffix_of(b),
        b.is_suffix_of(c),
    ensures
        a.is_suffix_of(c),
{
}

/// Something that consumes a prefix of a token sequence and produces a value
/// of type `T`, or fails with an error of type `E`.
///
/// The meaning of a parser is the relation `yields` between inputs and
/// outcomes. For a well-formed parser that relation is a function whose
/// remainders are suffixes of the input, and `parse` computes it on slices.
pub trait Parser<'a, STREAM: 'a, T, E> {
    /// The parser is well formed: the parts it was built from honour the
    /// contract of a parser.
    spec fn wf(&self) -> bool;

    /// Parsing `input` yields `out`: on success the value and the rest of the
    /// input that was not consumed, on failure the error.
    spec fn yields(&self, input: Seq<STREAM>, out: Outcome<STREAM, T, E>) -> bool;

    /// What a successful parse leaves over is a suffix of what it was given.
    proof fn lemma_rest_is_suffix(&self, input: Seq<STREAM>, out: Outcome<STREAM, T, E>)
        requires
            self.wf(),
            self.yields(input, out),
        ensures
            out matches Ok((_, rest)) ==> rest.is_suffix_of(input),
    ;

    /// A parser yields at most one outcome on each input.
    proof fn lemma_yields_one_outcome(
        &self,
        input: Seq<STREAM>,
        out1: Outcome<STREAM, T, E>,
        out2: Outcome<STREAM, T, E>,
    )
        requires
            self.wf(),
            self.yields(input, out1),
            self.yields(input, out2),
        ensures
            out1 == out2,
    ;

    /// Parses a prefix of `buf`. The input is not changed, and the remaining
    /// slice on success is the part of `buf` that follows the consumed prefix.
    fn parse(&self, buf: &'a [STREAM]) -> (r: Result<(T, &'a [STREAM]), E>)
        requires
            self.wf(),
        ensures
            self.yields(buf@, outcome_of(r)),
            r matches Ok((_, rest)) ==> rest@.is_suffix_of(buf@),
    ;
}

/// The combinators: methods that every parser has and that build a new parser
/// from it. None of them parses anything: the parser that comes back does,
/// when its `parse` is called.
pub trait ParserExt<'a, STREAM: 'a, T, E>: Parser<'a, STREAM, T, E> + Sized {
    /// The parser that runs `self` and applies `f` to its value. It consumes
    /// what `self` consumes and fails where `self` fails, with the same error.
    #[inline]
    fn map<U, F: Fn(T) -> U>(self, f: F) -> (r: Mapped<Self, F, T>)
        ensures
            r.inner == self,
            r.f == f,
            r.wf() <==> self.wf() && is_function(f),
            forall|input: Seq<STREAM>, out: Outcome<STREAM, U, E>| #[trigger]
                r.yields(input, out) <==> mapped_yields(self, f, input, out),
    {
        Mapped { inner: self, f, from: PhantomData }
    }

    /// The parser that runs `self`, lets `f` select a second parser by the
    /// value, and runs that one on what `self` left over. The first failure,
    /// of `self` or of the selected parser, is returned unchanged. It is well
    /// formed where `f` is a selector: what is asked of `f` is what the parsers
    /// it returns yield, not which parser values they are.
    #[inline]
    fn flat_map<U, P: Parser<'a, STREAM, U, E>, F: Fn(T) -> P>(self, f: F) -> (r: FlatMapped<
        Self,
        F,
        T,
    >)
        ensures
            r.inner == self,
            r.f == f,
            r.wf() <==> self.wf() && is_selector::<STREAM, T, U, E, P, F>(f),
            forall|input: Seq<STREAM>, out: Outcome<STREAM, U, E>| #[trigger]
                r.yields(input, out) <==> flat_mapped_yields(self, f, input, out),
    {
        FlatMapped { inner: self, f, from: PhantomData }
    }

    /// The parser that never fails: where `self` succeeds it yields the value
    /// as `Some`, and where `self` fails it yields `None` and leaves the whole
    /// input as the rest. The error of `self` is dropped.
    #[inline]
    fn optional(self) -> (r: Optional<Self>)
        ensures
            r.inner == self,
            r.wf() <==> self.wf(),
            forall|input: Seq<STREAM>, out: Outcome<STREAM, Option<T>, E>| #[trigger]
                r.yields(input, out) <==> optional_yields(self, input, out),
    {
        Optional { inner: self }
    }

    /// The parser that runs `self` and then `then` on what `self` left over,
    /// and yields both values. It fails with the error of `self` where `self`
    /// fails, and with the error of `then` where `then` fails after it. What
    /// `self` consumed before `then` failed is not given back.
    #[inline]
    fn then<U, Q: Parser<'a, STREAM, U, E>>(self, then: Q) -> (r: Then<Self, Q>)
        ensures
            r.first == self,
            r.second == then,
            r.wf() <==> self.wf() && then.wf(),
            forall|input: Seq<STREAM>, out: Outcome<STREAM, (T, U), E>| #[trigger]
                r.yields(input, out) <==> then_yields(self, then, input, out),
    {
        sequence(self, then)
    }

    /// As `then`, but the parser yields only the value of `then`.
    #[inline]
    fn then_right<U, Q: Parser<'a, STREAM, U, E>>(self, then: Q) -> (r: ThenRight<Self, Q, T>)
        ensures
            r.both.first == self,
            r.both.second == then,
            r.wf() <==> self.wf() && then.wf(),
            forall|input: Seq<STREAM>, out: Outcome<STREAM, U, E>| #[trigger]
                r.yields(input, out) <==> right_yields(self, then, input, out),
    {
        ThenRight { both: sequence(self, then), dropped: PhantomData }
    }

    /// As `then`, but the parser yields only the value of `self`.
    #[inline]
    fn then_left<U, Q: Parser<'a, STREAM, U, E>>(self, then: Q) -> (r: ThenLeft<Self, Q, U>)
        ensures
            r.both.first == self,
            r.both.second == then,
            r.wf() <==> self.wf() && then.wf(),
            forall|input: Seq<STREAM>, out: Outcome<STREAM, T, E>| #[trigger]
                r.yields(input, out) <==> left_yields(self, then, input, out),
    {
        ThenLeft { both: sequence(self, then), dropped: PhantomData }
    }
}

impl<'a, STREAM: 'a, T, E, P: Parser<'a, STREAM, T, E> + Sized> ParserExt<'a, STREAM, T, E> for P {

}

} // verus!
