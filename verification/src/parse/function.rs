//! Executable functions as mathematical ones, and plain functions as parsers.

use super::{outcome_of, Outcome, Parser};
use vstd::prelude::*;

verus! {

/// `f` behaves as a total mathematical function: it may be called on every
/// argument, and its contract admits at most one result for each.
pub open spec fn is_function<A, B, F: Fn(A) -> B>(f: F) -> bool {
    &&& forall|a: A| #[trigger] call_requires(f, (a,))
    &&& forall|a: A, b1: B, b2: B|
        #[trigger] call_ensures(f, (a,), b1) && #[trigger] call_ensures(f, (a,), b2) ==> b1 == b2
}

/// `f` honours the contract of a parser: it is a total function, and the
/// slice it returns on success is a suffix of the slice it was given.
pub open spec fn is_parser_function<'a, S: 'a, T, E, F: Fn(&'a [S]) -> Result<(T, &'a [S]), E>>(
    f: F,
) -> bool {
    &&& is_function(f)
    &&& forall|buf: &'a [S], v: T, rest: &'a [S]| #[trigger]
        call_ensures(f, (buf,), Ok((v, rest))) ==> rest@.is_suffix_of(buf@)
}

/// The meaning of `f` read as a parser: `out` is the model of something that
/// `f` returns on a slice that holds `input`.
pub open spec fn function_yields<'a, S: 'a, T, E, F: Fn(&'a [S]) -> Result<(T, &'a [S]), E>>(
    f: F,
    input: Seq<S>,
    out: Outcome<S, T, E>,
) -> bool {
    exists|buf: &'a [S], r: Result<(T, &'a [S]), E>| #[trigger]
        call_ensures(f, (buf,), r) && buf@ == input && outcome_of(r) == out
}

/// A plain function from a slice to a value and a remaining slice, or to an
/// error, is a parser: calling it is parsing.
impl<'a, STREAM: 'a, T, E, F: Fn(&'a [STREAM]) -> Result<(T, &'a [STREAM]), E>> Parser<
    'a,
    STREAM,
    T,
    E,
> for F {
    open spec fn wf(&self) -> bool {
        is_parser_function(*self)
    }

    open spec fn yields(&self, input: Seq<STREAM>, out: Outcome<STREAM, T, E>) -> bool {
        function_yields(*self, input, out)
    }

    proof fn lemma_rest_is_suffix(&self, input: Seq<STREAM>, out: Outcome<STREAM, T, E>) {
    }

    proof fn lemma_yields_one_outcome(
        &self,
        input: Seq<STREAM>,
        out1: Outcome<STREAM, T, E>,
        out2: Outcome<STREAM, T, E>,
    ) {
        let (buf1, r1) = choose|buf: &'a [STREAM], r: Result<(T, &'a [STREAM]), E>|
            #![trigger call_ensures(*self, (buf,), r)]
            call_ensures(*self, (buf,), r) && buf@ == input && outcome_of(r) == out1;
        let (buf2, r2) = choose|buf: &'a [STREAM], r: Result<(T, &'a [STREAM]), E>|
            #![trigger call_ensures(*self, (buf,), r)]
            call_ensures(*self, (buf,), r) && buf@ == input && outcome_of(r) == out2;
        assert(buf1 =~= buf2);
    }

    fn parse(&self, buf: &'a [STREAM]) -> (r: Result<(T, &'a [STREAM]), E>) {
        self(buf)
    }
}

/// What it means for a plain function to be a parser: it is well formed
/// exactly when it honours the contract of a parser, and it yields what the
/// function returns.
pub proof fn lemma_function_is_parser<'a, S: 'a, T, E, F: Fn(&'a [S]) -> Result<(T, &'a [S]), E>>(
    f: F,
)
    ensures
        f.wf() <==> is_parser_function(f),
        forall|input: Seq<S>, out: Outcome<S, T, E>| #[trigger]
            f.yields(input, out) <==> function_yields(f, input, out),
{
}

} // verus!
