//! Primitive parsers that consume the first token of a slice.
use vstd::prelude::*;
use vstd::std_specs::cmp::PartialEqSpec;
use crate::parsers::{Outcome, ParseError, ParseResult, Parser, outcome_of};

verus! {

/// A parser that recognizes only the token `literal` at the start of the input.
#[derive(Clone)]
pub struct LiteralParser<T: Eq + Clone> {
    pub literal: T,
}

impl<T: Eq + Clone> Parser for LiteralParser<T> {
    type I = T;
    type O = T;

    open spec fn wf(&self) -> bool {
        T::obeys_eq_spec()
    }

    open spec fn produces(&self, input: Seq<T>, res: Outcome<T, T>) -> bool {
        if input.len() == 0 {
            res == Outcome::<T, T>::Err(ParseError::EndOfInput)
        } else if input[0].eq_spec(&self.literal) {
            res is Ok && cloned(input[0], res->Ok_0.0) && res->Ok_0.1 == input.drop_first()
        } else {
            res == Outcome::<T, T>::Err(ParseError::Mismatch)
        }
    }

    fn parse<'a>(&self, data: &'a [T]) -> (r: ParseResult<&'a [T], T>) {
        if data.len() < 1 {
            return Err(ParseError::EndOfInput);
        }
        if data[0] == self.literal {
            Ok((data[0].clone(), vstd::slice::slice_subrange(data, 1, data.len())))
        } else {
            Err(ParseError::Mismatch)
        }
    }
}

/// A parser that hands a clone of the first token to `matcher` and succeeds with what it
/// returns in `Some`, or fails with `MatchFailed` on `None`.
pub struct MatchParser<T, F> {
    pub matcher: F,
    pub _marker: std::marker::PhantomData<T>,
}

impl<T: Clone, U, F: Fn(T) -> Option<U>> Parser for MatchParser<T, F> {
    type I = T;
    type O = U;

    open spec fn wf(&self) -> bool {
        forall|t: T| #[trigger] self.matcher.requires((t,))
    }

    open spec fn produces(&self, input: Seq<T>, res: Outcome<T, U>) -> bool {
        if input.len() == 0 {
            res == Outcome::<T, U>::Err(ParseError::EndOfInput)
        } else {
            exists|t: T| #[trigger] matched_via(self.matcher, input, res, t)
        }
    }

    fn parse<'a>(&self, data: &'a [T]) -> (r: ParseResult<&'a [T], U>) {
        if data.len() < 1 {
            return Err(ParseError::EndOfInput);
        }
        let t = data[0].clone();
        let ghost gt = t;
        let r = match (self.matcher)(t) {
            Some(u) => Ok((u, vstd::slice::slice_subrange(data, 1, data.len()))),
            None => Err(ParseError::MatchFailed),
        };
        assert(matched_via(self.matcher, data@, outcome_of(r), gt));
        r
    }
}

/// `t` is a clone of the first token of `input`, and `res` is what `matcher` makes of it:
/// a success on the rest of the input, or `MatchFailed`.
pub open spec fn matched_via<T: Clone, U, F: Fn(T) -> Option<U>>(
    matcher: F,
    input: Seq<T>,
    res: Outcome<T, U>,
    t: T,
) -> bool {
    &&& cloned(input[0], t)
    &&& match res {
        Ok((u, rest)) => matcher.ensures((t,), Some(u)) && rest == input.drop_first(),
        Err(e) => matcher.ensures((t,), None) && e == ParseError::MatchFailed,
    }
}

/// A parser that recognizes only the token `l`.
pub fn lit<T: Eq + Clone>(l: T) -> (r: LiteralParser<T>)
    ensures
        r.literal == l,
{
    LiteralParser { literal: l }
}

/// A parser that consumes the first token when `f` maps it to `Some`, with that value as output.
pub fn matcher<T: Clone, U, F: Fn(T) -> Option<U>>(f: F) -> (r: MatchParser<T, F>)
    ensures
        r.matcher == f,
{
    MatchParser { matcher: f, _marker: std::marker::PhantomData }
}

} // verus!
