//! The literal matcher: a parser that accepts one fixed sequence of tokens at
//! the start of its input.

use super::{Outcome, Parser};
use vstd::prelude::*;
use vstd::slice::slice_subrange;
use vstd::std_specs::cmp::PartialEqSpec;

verus! {

/// `input` begins with `pattern`: it is at least as long, and each of its
/// first elements is equal to the element of `pattern` at the same place,
/// under the elements' own `==`.
pub open spec fn starts_with<S: PartialEq>(input: Seq<S>, pattern: Seq<S>) -> bool {
    &&& pattern.len() <= input.len()
    &&& forall|i: int| 0 <= i < pattern.len() ==> (#[trigger] pattern[i]).eq_spec(&input[i])
}

/// The meaning of matching `pattern` at the start of `input`. Where `input`
/// begins with `pattern`, the match succeeds: its value holds the first
/// `pattern.len()` elements of `input`, and the rest is what follows them.
/// Everywhere else it fails.
pub open spec fn literal_yields<'a, S: PartialEq>(
    pattern: Seq<S>,
    input: Seq<S>,
    out: Outcome<S, &'a [S], ()>,
) -> bool {
    match out {
        Ok((v, rest)) => {
            &&& starts_with(input, pattern)
            &&& v@ == input.take(pattern.len() as int)
            &&& rest == input.skip(pattern.len() as int)
        },
        Err(_) => !starts_with(input, pattern),
    }
}

/// The `==` of `S` holds of two values exactly when they are the same value.
pub open spec fn eq_is_identity<S: PartialEq>() -> bool {
    forall|a: S, b: S| #[trigger] a.eq_spec(&b) <==> a == b
}

/// Where `==` on tokens is identity, a literal matches exactly when the
/// pattern is a prefix of the input, and the value of a match holds the
/// pattern.
pub proof fn lemma_literal_matches_prefix<'a, S: PartialEq>(
    pattern: Seq<S>,
    input: Seq<S>,
    out: Outcome<S, &'a [S], ()>,
)
    requires
        eq_is_identity::<S>(),
    ensures
        starts_with(input, pattern) <==> pattern.is_prefix_of(input),
        literal_yields(pattern, input, out) <==> match out {
            Ok((v, rest)) => {
                &&& pattern.is_prefix_of(input)
                &&& v@ == pattern
                &&& rest == input.skip(pattern.len() as int)
            },
            Err(_) => !pattern.is_prefix_of(input),
        },
{
    if starts_with(input, pattern) {
        assert(pattern =~= input.take(pattern.len() as int));
    }
    if pattern.is_prefix_of(input) {
        assert forall|i: int| 0 <= i < pattern.len() implies (#[trigger] pattern[i]).eq_spec(
            &input[i],
        ) by {
            assert(pattern[i] == input.subrange(0, pattern.len() as int)[i]);
        }
        assert(pattern =~= input.take(pattern.len() as int));
    }
}

/// The empty pattern matches every input: the value of the match is empty and
/// the rest is the whole input.
pub proof fn lemma_empty_literal_matches_all<'a, S: PartialEq>(
    input: Seq<S>,
    out: Outcome<S, &'a [S], ()>,
)
    ensures
        literal_yields(Seq::<S>::empty(), input, out) <==> (out matches Ok((v, rest)) && v@
            == Seq::<S>::empty() && rest == input),
{
    assert(input.take(0) =~= Seq::<S>::empty());
    assert(input.skip(0) =~= input);
}

/// Matching a pattern at the start of an input has one outcome at most.
pub proof fn lemma_literal_yields_one_outcome<'a, S: PartialEq>(
    pattern: Seq<S>,
    input: Seq<S>,
    out1: Outcome<S, &'a [S], ()>,
    out2: Outcome<S, &'a [S], ()>,
)
    requires
        literal_yields(pattern, input, out1),
        literal_yields(pattern, input, out2),
    ensures
        out1 == out2,
{
    match (out1, out2) {
        (Ok((v1, _)), Ok((v2, _))) => {
            assert(v1 =~= v2);
        },
        (Err(e1), Err(e2)) => {
            assert(e1 == e2);
        },
        _ => {},
    }
}

/// A parser that matches the tokens of `pattern` at the start of the input.
struct MatchBuf<'a, STREAM> {
    pattern: &'a [STREAM],
}

impl<'a, STREAM: Eq> Parser<'a, STREAM, &'a [STREAM], ()> for MatchBuf<'a, STREAM> {
    /// The matcher relies on `==` between tokens being a function of the two
    /// tokens it compares.
    open spec fn wf(&self) -> bool {
        STREAM::obeys_eq_spec()
    }

    closed spec fn yields(&self, input: Seq<STREAM>, out: Outcome<STREAM, &'a [STREAM], ()>) -> bool {
        literal_yields(self.pattern@, input, out)
    }

    proof fn lemma_rest_is_suffix(
        &self,
        input: Seq<STREAM>,
        out: Outcome<STREAM, &'a [STREAM], ()>,
    ) {
    }

    proof fn lemma_yields_one_outcome(
        &self,
        input: Seq<STREAM>,
        out1: Outcome<STREAM, &'a [STREAM], ()>,
        out2: Outcome<STREAM, &'a [STREAM], ()>,
    ) {
        lemma_literal_yields_one_outcome(self.pattern@, input, out1, out2);
    }

    /// Succeeds exactly when `buf` begins with the pattern. It then returns
    /// the first `pattern.len()` elements of `buf` as the value and the
    /// elements after them as the rest. On failure nothing is consumed.
    fn parse(&self, buf: &'a [STREAM]) -> (r: Result<(&'a [STREAM], &'a [STREAM]), ()>) {
        let n = self.pattern.len();
        if buf.len() < n {
            return Err(());
        }
        let mut i: usize = 0;
        while i < n
            invariant
                STREAM::obeys_eq_spec(),
                n == self.pattern@.len(),
                n <= buf@.len(),
                i <= n,
                forall|j: int| 0 <= j < i ==> (#[trigger] self.pattern@[j]).eq_spec(&buf@[j]),
            decreases n - i,
        {
            if !(self.pattern[i] == buf[i]) {
                return Err(());
            }
            i += 1;
        }
        let value = slice_subrange(buf, 0, n);
        let rest = slice_subrange(buf, n, buf.len());
        proof {
            assert(value@ =~= buf@.take(n as int));
            assert(rest@ =~= buf@.skip(n as int));
        }
        Ok((value, rest))
    }
}

/// Makes the parser that matches `pattern` at the start of its input.
///
/// The parser succeeds exactly on the inputs that begin with `pattern`. It
/// then consumes `pattern.len()` elements and returns them as its value. An
/// empty pattern matches every input and consumes nothing.
pub fn match_buf<'a, STREAM>(pattern: &'a [STREAM]) -> (p: impl Parser<
    'a,
    STREAM,
    &'a [STREAM],
    (),
>) where STREAM: Eq
    ensures
        p.wf() <==> STREAM::obeys_eq_spec(),
        forall|input: Seq<STREAM>, out: Outcome<STREAM, &'a [STREAM], ()>| #[trigger]
            p.yields(input, out) <==> literal_yields(pattern@, input, out),
{
    MatchBuf { pattern }
}

} // verus!
