//! Conveniences built on the combinators.
use vstd::prelude::*;
use crate::parsers::{
    Outcome, ParseResult, Parser, gather, lemma_suffix_of_suffix, outcome_of, repeats,
};

verus! {

/// `res` is an outcome of skipping the noise, running `essential`, and skipping the noise again:
/// the first skip gathers `n1` and ends at `m1`, and (on success) `essential` ends at `m2`,
/// from where the second skip gathers `n2`.
pub open spec fn skipped_via<T, P: Parser<I = T>, S: Parser<I = T>>(
    essential: P,
    noise: S,
    input: Seq<T>,
    res: Outcome<T, P::O>,
    n1: Seq<S::O>,
    m1: Seq<T>,
    n2: Seq<S::O>,
    m2: Seq<T>,
) -> bool {
    &&& repeats(noise, input, seq![], n1, m1)
    &&& match res {
        Ok((o, rest)) => essential.produces(m1, Ok((o, m2))) && repeats(
            noise,
            m2,
            seq![],
            n2,
            rest,
        ),
        Err(e) => essential.produces(m1, Err(e)),
    }
}

/// `essential` with any number of `noise` matches skipped before and after it; the output is
/// that of `essential`.
#[derive(Clone)]
pub struct SkipParser<P, S> {
    pub essential: P,
    pub noise: S,
}

impl<T, P: Parser<I = T>, S: Parser<I = T>> Parser for SkipParser<P, S> {
    type I = T;
    type O = P::O;

    open spec fn wf(&self) -> bool {
        self.essential.wf() && self.noise.wf()
    }

    open spec fn produces(&self, input: Seq<T>, res: Outcome<T, P::O>) -> bool {
        exists|n1: Seq<S::O>, m1: Seq<T>, n2: Seq<S::O>, m2: Seq<T>|
            #[trigger] skipped_via(self.essential, self.noise, input, res, n1, m1, n2, m2)
    }

    fn parse<'a>(&self, data: &'a [T]) -> (r: ParseResult<&'a [T], P::O>) {
        let (before, m1) = gather(&self.noise, data);
        match self.essential.parse(m1) {
            Ok((o, m2)) => {
                let (after, rest) = gather(&self.noise, m2);
                proof {
                    lemma_suffix_of_suffix(m2@, m1@, data@);
                    lemma_suffix_of_suffix(rest@, m2@, data@);
                }
                let r = Ok((o, rest));
                assert(skipped_via(
                    self.essential,
                    self.noise,
                    data@,
                    outcome_of(r),
                    before@,
                    m1@,
                    after@,
                    m2@,
                ));
                r
            },
            Err(e) => {
                let r = Err(e);
                assert(skipped_via(
                    self.essential,
                    self.noise,
                    data@,
                    outcome_of(r),
                    before@,
                    m1@,
                    seq![],
                    m1@,
                ));
                r
            },
        }
    }
}

/// A parser for `essential` that skips matches of `skipped` on both sides of it.
pub fn skip<T, P: Parser<I = T>, S: Parser<I = T>>(essential: P, skipped: S) -> (r: SkipParser<P, S>)
    ensures
        r.essential == essential,
        r.noise == skipped,
{
    SkipParser { essential, noise: skipped }
}

} // verus!
