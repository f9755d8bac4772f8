//! The `Parser` abstraction and the combinators that build parsers out of other parsers.
use vstd::prelude::*;

verus! {

/// Why a parse failed.
#[derive(Debug, Clone, Copy, PartialEq, Eq, Structural)]
pub enum ParseError {
    /// A token was needed but the input was empty.
    EndOfInput,
    /// The leading token differs from the expected literal.
    Mismatch,
    /// A matcher function rejected the leading token.
    MatchFailed,
    /// A separated repetition ended before reaching its minimum count.
    NotEnoughReps { required: usize, got: usize },
    /// Every alternative of a `one_of` failed.
    AllOptionsFailed,
}

/// The result of a parser's attempt: the output and the unconsumed rest of the input, or an error.
pub type ParseResult<I, O> = Result<(O, I), ParseError>;

/// A parse result with the remaining input seen as a sequence of tokens.
pub type Outcome<T, O> = Result<(O, Seq<T>), ParseError>;

/// The outcome that a result returned by `parse` stands for.
pub open spec fn outcome_of<T, O>(r: ParseResult<&[T], O>) -> Outcome<T, O> {
    match r {
        Ok((o, rest)) => Ok((o, rest@)),
        Err(e) => Err(e),
    }
}

/// Whether `rest` is what is left of `input` once a prefix is taken off.
pub open spec fn is_suffix<T>(rest: Seq<T>, input: Seq<T>) -> bool {
    rest.len() <= input.len() && rest == input.subrange(input.len() - rest.len(), input.len() as int)
}

/// A suffix of a suffix of `input` is a suffix of `input`.
pub proof fn lemma_suffix_of_suffix<T>(a: Seq<T>, b: Seq<T>, c: Seq<T>)
    requires
        is_suffix(a, b),
        is_suffix(b, c),
    ensures
        is_suffix(a, c),
{
    assert(a =~= c.subrange(c.len() - a.len(), c.len() as int));
}

/// Every sequence is a suffix of itself.
pub proof fn lemma_suffix_of_itself<T>(a: Seq<T>)
    ensures
        is_suffix(a, a),
{
    assert(a =~= a.subrange(0, a.len() as int));
}

/// A parser over slices of tokens of type `I`, producing values of type `O`.
pub trait Parser {
    type I;
    type O;

    /// What the parser needs in order to run (for instance, that the functions it holds accept
    /// every argument).
    spec fn wf(&self) -> bool;

    /// Whether parsing `input` may end in `res`.
    spec fn produces(&self, input: Seq<Self::I>, res: Outcome<Self::I, Self::O>) -> bool;

    /// Attempt to parse a prefix of `data` into an output value.
    fn parse<'a>(&self, data: &'a [Self::I]) -> (r: ParseResult<&'a [Self::I], Self::O>)
        requires
            self.wf(),
        ensures
            self.produces(data@, outcome_of(r)),
            r matches Ok((_, rest)) ==> is_suffix(rest@, data@),
    ;
}

/// A boxed parser parses as the parser inside it; `Box<dyn Parser<..>>` is how a grammar
/// refers to itself.
impl<P: Parser + ?Sized> Parser for Box<P> {
    type I = P::I;
    type O = P::O;

    open spec fn wf(&self) -> bool {
        (**self).wf()
    }

    open spec fn produces(&self, input: Seq<P::I>, res: Outcome<P::I, P::O>) -> bool {
        (**self).produces(input, res)
    }

    fn parse<'a>(&self, data: &'a [P::I]) -> (r: ParseResult<&'a [P::I], P::O>) {
        (**self).parse(data)
    }
}

/// Whether `p` may fail on `input`.
pub open spec fn may_fail<P: Parser>(p: P, input: Seq<P::I>) -> bool {
    exists|e: ParseError| p.produces(input, Err(e))
}

/// `res` is an outcome of running `first` then `second` on `input`, where `first` succeeds with
/// output `a` and remainder `mid` and `second` then runs on `mid`.
pub open spec fn chained_via<T, A: Parser<I = T>, B: Parser<I = T>>(
    first: A,
    second: B,
    input: Seq<T>,
    res: Outcome<T, (A::O, B::O)>,
    a: A::O,
    mid: Seq<T>,
) -> bool {
    &&& first.produces(input, Ok((a, mid)))
    &&& match res {
        Ok((out, rest)) => out.0 == a && second.produces(mid, Ok((out.1, rest))),
        Err(e) => second.produces(mid, Err(e)),
    }
}

/// Two parsers in sequence: the second runs on what the first left, and the outputs are paired.
#[derive(Clone)]
pub struct ChainedParser<A, B> {
    pub first: A,
    pub second: B,
}

impl<T, A: Parser<I = T>, B: Parser<I = T>> Parser for ChainedParser<A, B> {
    type I = A::I;
    type O = (A::O, B::O);

    open spec fn wf(&self) -> bool {
        self.first.wf() && self.second.wf()
    }

    open spec fn produces(&self, input: Seq<T>, res: Outcome<T, (A::O, B::O)>) -> bool {
        ||| (res is Err && self.first.produces(input, Err(res->Err_0)))
        ||| exists|a: A::O, mid: Seq<T>| #[trigger] chained_via(self.first, self.second, input, res, a, mid)
    }

    fn parse<'a>(&self, data: &'a [T]) -> (r: ParseResult<&'a [T], (A::O, B::O)>) {
        match self.first.parse(data) {
            Ok((a, mid)) => {
                let ghost ga = a;
                match self.second.parse(mid) {
                    Ok((b, rest)) => {
                        proof {
                            lemma_suffix_of_suffix(rest@, mid@, data@);
                        }
                        let r = Ok(((a, b), rest));
                        assert(chained_via(self.first, self.second, data@, outcome_of(r), ga, mid@));
                        r
                    },
                    Err(e) => {
                        let r = Err(e);
                        assert(chained_via(self.first, self.second, data@, outcome_of(r), ga, mid@));
                        r
                    },
                }
            },
            Err(e) => Err(e),
        }
    }
}

/// Ordered choice: the first parser's result if it succeeds, else the second parser's result
/// on the same input.
#[derive(Clone)]
pub struct OrParser<A, B> {
    pub first: A,
    pub second: B,
}

impl<A: Parser, B: Parser<I = A::I, O = A::O>> Parser for OrParser<A, B> {
    type I = A::I;
    type O = A::O;

    open spec fn wf(&self) -> bool {
        self.first.wf() && self.second.wf()
    }

    open spec fn produces(&self, input: Seq<A::I>, res: Outcome<A::I, A::O>) -> bool {
        ||| res is Ok && self.first.produces(input, res)
        ||| may_fail(self.first, input) && self.second.produces(input, res)
    }

    fn parse<'a>(&self, data: &'a [A::I]) -> (r: ParseResult<&'a [A::I], A::O>) {
        match self.first.parse(data) {
            Ok(r) => Ok(r),
            Err(e) => {
                assert(self.first.produces(data@, Err(e)));
                self.second.parse(data)
            },
        }
    }
}

/// `res` is a success of `parser` on `input` with output `o`, taken through `mapper`.
pub open spec fn mapped_via<P: Parser, U, F: Fn(P::O) -> U>(
    parser: P,
    mapper: F,
    input: Seq<P::I>,
    res: Outcome<P::I, U>,
    o: P::O,
) -> bool {
    match res {
        Ok((u, rest)) => parser.produces(input, Ok((o, rest))) && mapper.ensures((o,), u),
        Err(_) => false,
    }
}

/// A parser whose output goes through a total function.
#[derive(Clone)]
pub struct MapParser<P, F> {
    pub parser: P,
    pub mapper: F,
}

impl<P: Parser, U, F: Fn(P::O) -> U> Parser for MapParser<P, F> {
    type I = P::I;
    type O = U;

    open spec fn wf(&self) -> bool {
        &&& self.parser.wf()
        &&& forall|o: P::O| #[trigger] self.mapper.requires((o,))
    }

    open spec fn produces(&self, input: Seq<P::I>, res: Outcome<P::I, U>) -> bool {
        ||| (res is Err && self.parser.produces(input, Err(res->Err_0)))
        ||| exists|o: P::O| #[trigger] mapped_via(self.parser, self.mapper, input, res, o)
    }

    fn parse<'a>(&self, data: &'a [P::I]) -> (r: ParseResult<&'a [P::I], U>) {
        match self.parser.parse(data) {
            Ok((o, rest)) => {
                let ghost go = o;
                let u = (self.mapper)(o);
                let r = Ok((u, rest));
                assert(mapped_via(self.parser, self.mapper, data@, outcome_of(r), go));
                r
            },
            Err(e) => Err(e),
        }
    }
}

/// A parser that never fails: `Some` of the inner parser's output, or `None` with the input
/// untouched.
#[derive(Clone)]
pub struct OptionParser<P> {
    pub parser: P,
}

impl<P: Parser> Parser for OptionParser<P> {
    type I = P::I;
    type O = Option<P::O>;

    open spec fn wf(&self) -> bool {
        self.parser.wf()
    }

    open spec fn produces(&self, input: Seq<P::I>, res: Outcome<P::I, Option<P::O>>) -> bool {
        match res {
            Ok((Some(o), rest)) => self.parser.produces(input, Ok((o, rest))),
            Ok((None, rest)) => rest == input && may_fail(self.parser, input),
            Err(_) => false,
        }
    }

    fn parse<'a>(&self, data: &'a [P::I]) -> (r: ParseResult<&'a [P::I], Option<P::O>>) {
        match self.parser.parse(data) {
            Ok((o, rest)) => Ok((Some(o), rest)),
            Err(e) => {
                assert(self.parser.produces(data@, Err(e)));
                proof {
                    lemma_suffix_of_itself(data@);
                }
                Ok((None, data))
            },
        }
    }
}

/// Whether a repetition of `p` stops at `input`: `p` may fail there, or succeed without
/// consuming anything (repeating it would then never end).
pub open spec fn stops<P: Parser>(p: P, input: Seq<P::I>) -> bool {
    ||| may_fail(p, input)
    ||| exists|o: P::O, next: Seq<P::I>|
        #[trigger] p.produces(input, Ok((o, next))) && next.len() >= input.len()
}

/// Applying `p` again and again from `input`, after the outputs `acc` were gathered, may end
/// with the outputs `outs` and the remainder `rest`.
pub open spec fn repeats<P: Parser>(
    p: P,
    input: Seq<P::I>,
    acc: Seq<P::O>,
    outs: Seq<P::O>,
    rest: Seq<P::I>,
) -> bool
    decreases input.len(),
{
    ||| stops(p, input) && outs == acc && rest == input
    ||| exists|o: P::O, next: Seq<P::I>|
        #[trigger] p.produces(input, Ok((o, next))) && next.len() < input.len() && repeats(
            p,
            next,
            acc.push(o),
            outs,
            rest,
        )
}

/// Zero or more applications of a parser, gathered in order, until it fails; it never fails
/// itself. A success that consumes nothing also ends the repetition (its output is dropped),
/// since repeating it would never end.
#[derive(Clone)]
pub struct RepeatParser<P> {
    pub parser: P,
}

impl<P: Parser> Parser for RepeatParser<P> {
    type I = P::I;
    type O = Vec<P::O>;

    open spec fn wf(&self) -> bool {
        self.parser.wf()
    }

    open spec fn produces(&self, input: Seq<P::I>, res: Outcome<P::I, Vec<P::O>>) -> bool {
        res is Ok && repeats(self.parser, input, seq![], res->Ok_0.0@, res->Ok_0.1)
    }

    fn parse<'a>(&self, data: &'a [P::I]) -> (r: ParseResult<&'a [P::I], Vec<P::O>>) {
        let (v, rest) = gather(&self.parser, data);
        Ok((v, rest))
    }
}

/// Applies `p` from `data` until it stops, returning the outputs and the remainder.
pub(crate) fn gather<'a, P: Parser>(p: &P, data: &'a [P::I]) -> (r: (Vec<P::O>, &'a [P::I]))
    requires
        p.wf(),
    ensures
        repeats(*p, data@, seq![], r.0@, r.1@),
        is_suffix(r.1@, data@),
{
    proof {
        lemma_suffix_of_itself(data@);
    }
    let mut remain = data;
    let mut v: Vec<P::O> = Vec::new();
    loop
        invariant
            p.wf(),
            is_suffix(remain@, data@),
            forall|outs: Seq<P::O>, rest: Seq<P::I>|
                #[trigger] repeats(*p, remain@, v@, outs, rest) ==> repeats(
                    *p,
                    data@,
                    seq![],
                    outs,
                    rest,
                ),
        decreases remain@.len(),
    {
        match p.parse(remain) {
            Ok((o, rest)) => {
                if rest.len() < remain.len() {
                    proof {
                        lemma_suffix_of_suffix(rest@, remain@, data@);
                    }
                    let ghost go = o;
                    let ghost before = remain@;
                    let ghost acc = v@;
                    v.push(o);
                    remain = rest;
                    assert forall|outs: Seq<P::O>, last: Seq<P::I>|
                        #[trigger] repeats(*p, remain@, v@, outs, last) implies repeats(
                        *p,
                        data@,
                        seq![],
                        outs,
                        last,
                    ) by {
                        assert(p.produces(before, Ok((go, remain@))));
                        assert(v@ == acc.push(go));
                        assert(repeats(*p, before, acc, outs, last));
                    }
                } else {
                    assert(p.produces(remain@, Ok((o, rest@))));
                    assert(repeats(*p, remain@, v@, v@, remain@));
                    return (v, remain);
                }
            },
            Err(e) => {
                assert(p.produces(remain@, Err(e)));
                assert(repeats(*p, remain@, v@, v@, remain@));
                return (v, remain);
            },
        }
    }
}

/// Whether a separated repetition that started an iteration at an input of length `start_len`
/// stops at `mid`, the remainder after the repeated parser: `sep` may fail there, or succeed
/// without the iteration having consumed anything.
pub open spec fn sep_stops<B: Parser>(sep: B, mid: Seq<B::I>, start_len: nat) -> bool {
    ||| may_fail(sep, mid)
    ||| exists|x: B::O, next: Seq<B::I>|
        #[trigger] sep.produces(mid, Ok((x, next))) && next.len() >= start_len
}

/// How a separated repetition ends once its separator stops: the gathered outputs and the
/// remainder before the separator, or `NotEnoughReps` below the minimum count.
pub open spec fn separated_end<T, O>(min_reps: usize, outs: Seq<O>, rest: Seq<T>) -> Outcome<T, Seq<O>> {
    if outs.len() < min_reps {
        Err(ParseError::NotEnoughReps { required: min_reps, got: outs.len() as usize })
    } else {
        Ok((outs, rest))
    }
}

/// A separated repetition of `rep` and `sep` from `input`, after the outputs `acc` were gathered,
/// may end in `res` (with the outputs as a sequence).
pub open spec fn separated<T, A: Parser<I = T>, B: Parser<I = T>>(
    rep: A,
    sep: B,
    min_reps: usize,
    input: Seq<T>,
    acc: Seq<A::O>,
    res: Outcome<T, Seq<A::O>>,
) -> bool
    decreases input.len(),
{
    ||| (res is Err && rep.produces(input, Err(res->Err_0)))
    ||| exists|o: A::O, mid: Seq<T>|
        #[trigger] rep.produces(input, Ok((o, mid))) && {
            ||| (sep_stops(sep, mid, input.len()) && res == separated_end(min_reps, acc.push(o), mid))
            ||| exists|x: B::O, next: Seq<T>|
                #[trigger] sep.produces(mid, Ok((x, next))) && next.len() < input.len()
                    && separated(rep, sep, min_reps, next, acc.push(o), res)
        }
}

/// The outcome `res` with its output vector seen as a sequence.
pub open spec fn seq_outcome<T, O>(res: Outcome<T, Vec<O>>) -> Outcome<T, Seq<O>> {
    match res {
        Ok((v, rest)) => Ok((v@, rest)),
        Err(e) => Err(e),
    }
}

/// `rep` repeated with `sep` between the repetitions, until `sep` fails; the remainder is then
/// the one before `sep`. A failure of `rep` is the failure of the whole; fewer than `min_reps`
/// repetitions is `NotEnoughReps`. An iteration that consumes nothing ends the repetition as a
/// failing `sep` does, since repeating it would never end.
#[derive(Clone)]
pub struct RepSepParser<A, B> {
    pub rep: A,
    pub sep: B,
    pub min_reps: usize,
}

impl<T, A: Parser<I = T>, B: Parser<I = T>> Parser for RepSepParser<A, B> {
    type I = T;
    type O = Vec<A::O>;

    open spec fn wf(&self) -> bool {
        self.rep.wf() && self.sep.wf()
    }

    open spec fn produces(&self, input: Seq<T>, res: Outcome<T, Vec<A::O>>) -> bool {
        separated(self.rep, self.sep, self.min_reps, input, seq![], seq_outcome(res))
    }

    fn parse<'a>(&self, data: &'a [T]) -> (r: ParseResult<&'a [T], Vec<A::O>>) {
        let mut remain = data;
        let mut v: Vec<A::O> = Vec::new();
        proof {
            lemma_suffix_of_itself(data@);
        }
        loop
            invariant
                self.rep.wf(),
                self.sep.wf(),
                is_suffix(remain@, data@),
                forall|res: Outcome<T, Seq<A::O>>|
                    #[trigger] separated(self.rep, self.sep, self.min_reps, remain@, v@, res)
                        ==> separated(self.rep, self.sep, self.min_reps, data@, seq![], res),
            decreases remain@.len(),
        {
            match self.rep.parse(remain) {
                Ok((o, mid)) => {
                    let ghost go = o;
                    let ghost before = remain@;
                    let ghost acc = v@;
                    proof {
                        lemma_suffix_of_suffix(mid@, remain@, data@);
                    }
                    v.push(o);
                    assert(v@ == acc.push(go));
                    assert(self.rep.produces(before, Ok((go, mid@))));
                    let stop = match self.sep.parse(mid) {
                        Ok((x, next)) => {
                            if next.len() < remain.len() {
                                proof {
                                    lemma_suffix_of_suffix(next@, mid@, data@);
                                }
                                let ghost gx = x;
                                remain = next;
                                assert forall|res: Outcome<T, Seq<A::O>>|
                                    #[trigger] separated(
                                        self.rep,
                                        self.sep,
                                        self.min_reps,
                                        remain@,
                                        v@,
                                        res,
                                    ) implies separated(
                                    self.rep,
                                    self.sep,
                                    self.min_reps,
                                    data@,
                                    seq![],
                                    res,
                                ) by {
                                    assert(self.sep.produces(mid@, Ok((gx, remain@))));
                                    assert(separated(
                                        self.rep,
                                        self.sep,
                                        self.min_reps,
                                        before,
                                        acc,
                                        res,
                                    ));
                                }
                                false
                            } else {
                                assert(self.sep.produces(mid@, Ok((x, next@))));
                                true
                            }
                        },
                        Err(e) => {
                            assert(self.sep.produces(mid@, Err(e)));
                            true
                        },
                    };
                    if stop {
                        assert(sep_stops(self.sep, mid@, before.len()));
                        let r = if v.len() < self.min_reps {
                            Err(ParseError::NotEnoughReps { required: self.min_reps, got: v.len() })
                        } else {
                            Ok((v, mid))
                        };
                        assert(seq_outcome(outcome_of(r)) == separated_end(
                            self.min_reps,
                            acc.push(go),
                            mid@,
                        ));
                        assert(separated(
                            self.rep,
                            self.sep,
                            self.min_reps,
                            before,
                            acc,
                            seq_outcome(outcome_of(r)),
                        ));
                        return r;
                    }
                },
                Err(e) => {
                    let r = Err(e);
                    assert(separated(
                        self.rep,
                        self.sep,
                        self.min_reps,
                        remain@,
                        v@,
                        seq_outcome(outcome_of(r)),
                    ));
                    return r;
                },
            }
        }
    }
}

/// Trying `options[k]`, `options[k + 1]`, ... on `input` in turn, stopping at the first
/// success, may end in `res`; when every option fails it ends in `AllOptionsFailed`.
pub open spec fn first_success<P: Parser>(
    options: Seq<P>,
    k: nat,
    input: Seq<P::I>,
    res: Outcome<P::I, P::O>,
) -> bool
    decreases options.len() - k,
{
    if k >= options.len() {
        res == Outcome::<P::I, P::O>::Err(ParseError::AllOptionsFailed)
    } else {
        ||| res is Ok && options[k as int].produces(input, res)
        ||| may_fail(options[k as int], input) && first_success(options, k + 1, input, res)
    }
}

/// Ordered choice among any number of parsers of one type: the first success, or
/// `AllOptionsFailed`.
#[derive(Clone)]
pub struct OneOfParser<P> {
    pub options: Vec<P>,
}

impl<P: Parser> Parser for OneOfParser<P> {
    type I = P::I;
    type O = P::O;

    open spec fn wf(&self) -> bool {
        forall|k: int| 0 <= k < self.options@.len() ==> #[trigger] self.options@[k].wf()
    }

    open spec fn produces(&self, input: Seq<P::I>, res: Outcome<P::I, P::O>) -> bool {
        first_success(self.options@, 0, input, res)
    }

    fn parse<'a>(&self, data: &'a [P::I]) -> (r: ParseResult<&'a [P::I], P::O>) {
        let mut i: usize = 0;
        while i < self.options.len()
            invariant
                self.wf(),
                i <= self.options@.len(),
                forall|res: Outcome<P::I, P::O>|
                    #[trigger] first_success(self.options@, i as nat, data@, res) ==> first_success(
                        self.options@,
                        0,
                        data@,
                        res,
                    ),
            decreases self.options@.len() - i,
        {
            let r = self.options[i].parse(data);
            match r {
                Ok(_) => {
                    assert(first_success(self.options@, i as nat, data@, outcome_of(r)));
                    return r;
                },
                Err(e) => {
                    assert(self.options@[i as int].produces(data@, Err(e)));
                    let ghost k = i as nat;
                    i = i + 1;
                    assert forall|res: Outcome<P::I, P::O>|
                        #[trigger] first_success(self.options@, i as nat, data@, res) implies first_success(
                        self.options@,
                        0,
                        data@,
                        res,
                    ) by {
                        assert(first_success(self.options@, k, data@, res));
                    }
                },
            }
        }
        let r = Err(ParseError::AllOptionsFailed);
        assert(first_success(self.options@, i as nat, data@, outcome_of(r)));
        r
    }
}

/// A parser made on demand by a factory each time it parses; this is how a grammar rule refers
/// to itself without building an infinite value.
#[derive(Clone)]
pub struct RecursiveParser<F> {
    pub factory: F,
}

impl<P: Parser, F: Fn() -> P> Parser for RecursiveParser<F> {
    type I = P::I;
    type O = P::O;

    open spec fn wf(&self) -> bool {
        &&& self.factory.requires(())
        &&& forall|p: P| #[trigger] self.factory.ensures((), p) ==> p.wf()
    }

    open spec fn produces(&self, input: Seq<P::I>, res: Outcome<P::I, P::O>) -> bool {
        exists|p: P| #[trigger] self.factory.ensures((), p) && p.produces(input, res)
    }

    fn parse<'a>(&self, data: &'a [P::I]) -> (r: ParseResult<&'a [P::I], P::O>) {
        let p = (self.factory)();
        let r = p.parse(data);
        assert(self.factory.ensures((), p));
        r
    }
}

/// A shared handle on a parser. Unverified callers may hold a `dyn Parser` in it to keep the
/// types of large grammars small.
pub struct BoxedParser<P: ?Sized> {
    pub parser: std::rc::Rc<P>,
}

impl<P: Parser + ?Sized> Parser for BoxedParser<P> {
    type I = P::I;
    type O = P::O;

    open spec fn wf(&self) -> bool {
        (*self.parser).wf()
    }

    open spec fn produces(&self, input: Seq<P::I>, res: Outcome<P::I, P::O>) -> bool {
        (*self.parser).produces(input, res)
    }

    fn parse<'a>(&self, data: &'a [P::I]) -> (r: ParseResult<&'a [P::I], P::O>) {
        (*self.parser).parse(data)
    }
}

impl<P: ?Sized> Clone for BoxedParser<P> {
    /// Another handle on the same parser.
    fn clone(&self) -> (r: Self)
        ensures
            r.parser == self.parser,
    {
        BoxedParser { parser: std::rc::Rc::clone(&self.parser) }
    }
}

/// `res` is an outcome of `chain` with the right output `b` dropped.
pub open spec fn kept_left<T, A: Parser<I = T>, B: Parser<I = T>>(
    chain: ChainedParser<A, B>,
    input: Seq<T>,
    res: Outcome<T, A::O>,
    b: B::O,
) -> bool {
    match res {
        Ok((a, rest)) => chain.produces(input, Ok(((a, b), rest))),
        Err(_) => false,
    }
}

/// `res` is an outcome of `chain` with the left output `a` dropped.
pub open spec fn kept_right<T, A: Parser<I = T>, B: Parser<I = T>>(
    chain: ChainedParser<A, B>,
    input: Seq<T>,
    res: Outcome<T, B::O>,
    a: A::O,
) -> bool {
    match res {
        Ok((b, rest)) => chain.produces(input, Ok(((a, b), rest))),
        Err(_) => false,
    }
}

/// Two parsers in sequence, keeping the output of the first.
#[derive(Clone)]
pub struct ThenLeftParser<A, B> {
    pub chain: ChainedParser<A, B>,
}

impl<T, A: Parser<I = T>, B: Parser<I = T>> Parser for ThenLeftParser<A, B> {
    type I = T;
    type O = A::O;

    open spec fn wf(&self) -> bool {
        self.chain.wf()
    }

    open spec fn produces(&self, input: Seq<T>, res: Outcome<T, A::O>) -> bool {
        ||| (res is Err && self.chain.produces(input, Err(res->Err_0)))
        ||| exists|b: B::O| #[trigger] kept_left(self.chain, input, res, b)
    }

    fn parse<'a>(&self, data: &'a [T]) -> (r: ParseResult<&'a [T], A::O>) {
        match self.chain.parse(data) {
            Ok(((a, b), rest)) => {
                let ghost gb = b;
                let r = Ok((a, rest));
                assert(kept_left(self.chain, data@, outcome_of(r), gb));
                r
            },
            Err(e) => Err(e),
        }
    }
}

/// Two parsers in sequence, keeping the output of the second.
#[derive(Clone)]
pub struct ThenRightParser<A, B> {
    pub chain: ChainedParser<A, B>,
}

impl<T, A: Parser<I = T>, B: Parser<I = T>> Parser for ThenRightParser<A, B> {
    type I = T;
    type O = B::O;

    open spec fn wf(&self) -> bool {
        self.chain.wf()
    }

    open spec fn produces(&self, input: Seq<T>, res: Outcome<T, B::O>) -> bool {
        ||| (res is Err && self.chain.produces(input, Err(res->Err_0)))
        ||| exists|a: A::O| #[trigger] kept_right(self.chain, input, res, a)
    }

    fn parse<'a>(&self, data: &'a [T]) -> (r: ParseResult<&'a [T], B::O>) {
        match self.chain.parse(data) {
            Ok(((a, b), rest)) => {
                let ghost ga = a;
                let r = Ok((b, rest));
                assert(kept_right(self.chain, data@, outcome_of(r), ga));
                r
            },
            Err(e) => Err(e),
        }
    }
}

/// Methods that wrap a parser into a larger one, so that grammars read as expressions.
pub trait ParserCombinator: Parser + Sized {
    /// This parser followed by `p`; the outputs are paired.
    fn and_then<P: Parser<I = Self::I>>(self, p: P) -> (r: ChainedParser<Self, P>)
        ensures
            r.first == self,
            r.second == p,
    {
        ChainedParser { first: self, second: p }
    }

    /// This parser followed by `p`, keeping the output of `p`.
    fn then_r<P: Parser<I = Self::I>>(self, p: P) -> (r: ThenRightParser<Self, P>)
        ensures
            r.chain.first == self,
            r.chain.second == p,
    {
        ThenRightParser { chain: ChainedParser { first: self, second: p } }
    }

    /// This parser followed by `p`, keeping the output of this parser.
    fn then_l<P: Parser<I = Self::I>>(self, p: P) -> (r: ThenLeftParser<Self, P>)
        ensures
            r.chain.first == self,
            r.chain.second == p,
    {
        ThenLeftParser { chain: ChainedParser { first: self, second: p } }
    }

    /// This parser applied until it fails, gathering the outputs.
    fn repeat(self) -> (r: RepeatParser<Self>)
        ensures
            r.parser == self,
    {
        RepeatParser { parser: self }
    }

    /// This parser with its output passed through `f`.
    fn map<U, F: Fn(Self::O) -> U>(self, f: F) -> (r: MapParser<Self, F>)
        ensures
            r.parser == self,
            r.mapper == f,
    {
        MapParser { parser: self, mapper: f }
    }

    /// This parser, or `p` on the same input if this parser fails.
    fn or<P: Parser<I = Self::I, O = Self::O>>(self, p: P) -> (r: OrParser<Self, P>)
        ensures
            r.first == self,
            r.second == p,
    {
        OrParser { first: self, second: p }
    }
}

impl<P: Parser> ParserCombinator for P {

}

/// A parser that gives `Some` of `t`'s output when `t` succeeds, and `None` without consuming
/// anything when it fails.
pub fn opt<P: Parser>(t: P) -> (r: OptionParser<P>)
    ensures
        r.parser == t,
{
    OptionParser { parser: t }
}

/// A parser that calls `f` each time it parses and runs the parser that `f` returns; a rule
/// can so refer to itself.
pub fn recursive<P: Parser, F: Fn() -> P>(f: F) -> (r: RecursiveParser<F>)
    ensures
        r.factory == f,
{
    RecursiveParser { factory: f }
}

/// `rep` repeated with `sep` between repetitions, at least once.
pub fn repsep<T, A: Parser<I = T>, B: Parser<I = T>>(rep: A, sep: B) -> (r: RepSepParser<A, B>)
    ensures
        r.rep == rep,
        r.sep == sep,
        r.min_reps == 1,
{
    RepSepParser { rep, sep, min_reps: 1 }
}

/// The first success among `t`, tried in order.
pub fn one_of<P: Parser>(t: Vec<P>) -> (r: OneOfParser<P>)
    ensures
        r.options == t,
{
    OneOfParser { options: t }
}

/// `p` behind a shared handle.
pub fn boxed<P: Parser>(p: P) -> (r: BoxedParser<P>)
    ensures
        *r.parser == p,
{
    BoxedParser { parser: std::rc::Rc::new(p) }
}

} // verus!
