//! Properties that hold of the combinators for every input.
use vstd::prelude::*;
use vstd::std_specs::cmp::PartialEqSpec;
use crate::parsers::{MapParser, OptionParser, OrParser, Outcome, Parser, RepeatParser, repeats};
use crate::slice_parsers::LiteralParser;

verus! {

/// A literal parser on an input whose first token equals its literal succeeds, with a clone of
/// that token as output and the input without its first token as remainder.
pub proof fn lemma_literal_takes_matching_token<T: Eq + Clone>(
    l: LiteralParser<T>,
    input: Seq<T>,
    res: Outcome<T, T>,
)
    requires
        input.len() > 0,
        input[0].eq_spec(&l.literal),
        l.produces(input, res),
    ensures
        res is Ok,
        cloned(input[0], res->Ok_0.0),
        res->Ok_0.1 == input.drop_first(),
{
}

/// `opt(p)` never fails.
pub proof fn lemma_opt_never_fails<P: Parser>(
    o: OptionParser<P>,
    input: Seq<P::I>,
    res: Outcome<P::I, Option<P::O>>,
)
    requires
        o.produces(input, res),
    ensures
        res is Ok,
{
}

/// When the wrapped parser fails on an input, `opt` gives `None` and leaves the input exactly
/// as it was.
pub proof fn lemma_opt_failure_keeps_input<P: Parser>(
    o: OptionParser<P>,
    input: Seq<P::I>,
    res: Outcome<P::I, Option<P::O>>,
)
    requires
        forall|x: P::O, rest: Seq<P::I>| !#[trigger] o.parser.produces(input, Ok((x, rest))),
        o.produces(input, res),
    ensures
        res == Outcome::<P::I, Option<P::O>>::Ok((None, input)),
{
}

/// `repeat(p)` never fails.
pub proof fn lemma_repeat_never_fails<P: Parser>(
    r: RepeatParser<P>,
    input: Seq<P::I>,
    res: Outcome<P::I, Vec<P::O>>,
)
    requires
        r.produces(input, res),
    ensures
        res is Ok,
{
}

/// On an input where `p` does not succeed, `repeat(p)` gives no outputs and leaves the input
/// as it was.
pub proof fn lemma_repeat_without_match<P: Parser>(
    r: RepeatParser<P>,
    input: Seq<P::I>,
    res: Outcome<P::I, Vec<P::O>>,
)
    requires
        forall|x: P::O, rest: Seq<P::I>| !#[trigger] r.parser.produces(input, Ok((x, rest))),
        r.produces(input, res),
    ensures
        res is Ok,
        res->Ok_0.0@.len() == 0,
        res->Ok_0.1 == input,
{
    assert(repeats(r.parser, input, seq![], res->Ok_0.0@, res->Ok_0.1));
}

/// Every outcome of `map(p, g)` is an outcome of `p` with the same remainder or the same error,
/// the output of a success being `g` applied to the output of `p`.
pub proof fn lemma_map_outcome_from_parser<P: Parser, U, F: Fn(P::O) -> U>(
    m: MapParser<P, F>,
    input: Seq<P::I>,
    res: Outcome<P::I, U>,
)
    requires
        m.produces(input, res),
    ensures
        res is Err ==> m.parser.produces(input, Err(res->Err_0)),
        res is Ok ==> exists|o: P::O|
            m.parser.produces(input, Ok((o, res->Ok_0.1))) && #[trigger] m.mapper.ensures(
                (o,),
                res->Ok_0.0,
            ),
{
    if res is Ok {
        let o = choose|o: P::O| #[trigger]
            crate::parsers::mapped_via(m.parser, m.mapper, input, res, o);
        assert(m.parser.produces(input, Ok((o, res->Ok_0.1))));
    }
}

/// Every outcome of `p` is, with the same remainder or the same error, an outcome of
/// `map(p, g)`, whose output is then any value that `g` gives for the output of `p`.
pub proof fn lemma_map_follows_parser<P: Parser, U, F: Fn(P::O) -> U>(
    m: MapParser<P, F>,
    input: Seq<P::I>,
    res: Outcome<P::I, P::O>,
)
    requires
        m.parser.produces(input, res),
    ensures
        res is Err ==> m.produces(input, Err(res->Err_0)),
        res is Ok ==> forall|u: U|
            #[trigger] m.mapper.ensures((res->Ok_0.0,), u) ==> m.produces(
                input,
                Ok((u, res->Ok_0.1)),
            ),
{
    if res is Ok {
        assert forall|u: U| #[trigger] m.mapper.ensures((res->Ok_0.0,), u) implies m.produces(
            input,
            Ok((u, res->Ok_0.1)),
        ) by {
            assert(crate::parsers::mapped_via(
                m.parser,
                m.mapper,
                input,
                Ok((u, res->Ok_0.1)),
                res->Ok_0.0,
            ));
        }
    }
}

/// With a first alternative that never fails and a second that never succeeds, `or` gives
/// what the first alternative gives.
pub proof fn lemma_or_first_always_succeeds<A: Parser, B: Parser<I = A::I, O = A::O>>(
    p: OrParser<A, B>,
    input: Seq<A::I>,
    res: Outcome<A::I, A::O>,
)
    requires
        forall|s: Seq<A::I>, e| !#[trigger] p.first.produces(s, Err(e)),
        forall|s: Seq<A::I>, x| !#[trigger] p.second.produces(s, Ok(x)),
        p.produces(input, res),
    ensures
        p.first.produces(input, res),
{
}

/// With a first alternative that never succeeds and a second that never fails, `or` gives
/// what the second alternative gives.
pub proof fn lemma_or_second_always_succeeds<A: Parser, B: Parser<I = A::I, O = A::O>>(
    p: OrParser<A, B>,
    input: Seq<A::I>,
    res: Outcome<A::I, A::O>,
)
    requires
        forall|s: Seq<A::I>, x| !#[trigger] p.first.produces(s, Ok(x)),
        forall|s: Seq<A::I>, e| !#[trigger] p.second.produces(s, Err(e)),
        p.produces(input, res),
    ensures
        p.second.produces(input, res),
        res is Ok,
{
    if res is Ok {
        assert(!p.first.produces(input, Ok(res->Ok_0)));
    } else {
        assert(!p.second.produces(input, Err(res->Err_0)));
    }
}

} // verus!
