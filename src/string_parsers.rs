//! Parsers for text, held as UTF-8 bytes, that match a regular expression at the input.
use vstd::prelude::*;
use vstd::string::StringExecFns;
use regex::bytes::Regex;
use crate::parsers::{Outcome, ParseError, ParseResult, Parser, is_suffix, outcome_of};

verus! {

#[verifier::external_type_specification]
#[verifier::external_body]
pub struct ExRegex(regex::bytes::Regex);

/// Whether `pattern` is a regular expression that the regex crate accepts.
pub uninterp spec fn pattern_compiles(pattern: Seq<char>) -> bool;

/// Relies on `regex::bytes::Regex::new`: compiles `pattern`; whether it succeeds depends on the
/// pattern alone.
#[verifier::external_body]
fn compile(pattern: &str) -> (r: Option<Regex>)
    ensures
        r is Some <==> pattern_compiles(pattern@),
{
    Regex::new(pattern).ok()
}

/// Relies on `regex::bytes::Regex::find`: the end offset of the first match in `haystack`,
/// which the crate guarantees to lie within the haystack.
#[verifier::external_body]
fn find_end(re: &Regex, haystack: &[u8]) -> (r: Option<usize>)
    ensures
        r matches Some(end) ==> end <= haystack@.len(),
{
    re.find(haystack).map(|m| m.end())
}

/// Relies on `regex::bytes::Regex::captures`: for the first match in `haystack`, its end offset
/// (within the haystack) and the bytes of each capture group, group 0 being the whole match.
#[verifier::external_body]
fn find_captures(re: &Regex, haystack: &[u8]) -> (r: Option<(usize, Vec<Option<Vec<u8>>>)>)
    ensures
        r matches Some((end, _)) ==> end <= haystack@.len(),
{
    match re.captures(haystack) {
        Some(caps) => {
            let mut groups = Vec::new();
            for g in caps.iter() {
                groups.push(g.map(|m| m.as_bytes().to_vec()));
            }
            Some((caps.get_match().end(), groups))
        },
        None => None,
    }
}

/// A parser that consumes the input up to the end of the first match of `regex` and outputs a
/// clone of `literal`, or fails with `Mismatch` where the regex does not match.
pub struct RegexLiteralParser<T: Clone> {
    pub regex: Regex,
    pub literal: T,
}

impl<T: Clone> Parser for RegexLiteralParser<T> {
    type I = u8;
    type O = T;

    open spec fn wf(&self) -> bool {
        true
    }

    open spec fn produces(&self, input: Seq<u8>, res: Outcome<u8, T>) -> bool {
        match res {
            Ok((o, rest)) => cloned(self.literal, o) && is_suffix(rest, input),
            Err(e) => e == ParseError::Mismatch,
        }
    }

    fn parse<'a>(&self, data: &'a [u8]) -> (r: ParseResult<&'a [u8], T>) {
        match find_end(&self.regex, data) {
            Some(end) => Ok((self.literal.clone(), vstd::slice::slice_subrange(data, end, data.len()))),
            None => Err(ParseError::Mismatch),
        }
    }
}

/// `res` is a success on `input` whose output `f` made of the capture groups `groups`.
pub open spec fn captured_via<T, F: Fn(Vec<Option<Vec<u8>>>) -> T>(
    f: F,
    input: Seq<u8>,
    res: Outcome<u8, T>,
    groups: Vec<Option<Vec<u8>>>,
) -> bool {
    match res {
        Ok((o, rest)) => is_suffix(rest, input) && f.ensures((groups,), o),
        Err(_) => false,
    }
}

/// A parser that consumes the input up to the end of the first match of `regex`, and hands the
/// bytes of the capture groups to `f`, whose result is the output; it fails with `MatchFailed`
/// where the regex does not match.
pub struct RegexCapturesParser<F> {
    pub regex: Regex,
    pub f: F,
}

impl<T, F: Fn(Vec<Option<Vec<u8>>>) -> T> Parser for RegexCapturesParser<F> {
    type I = u8;
    type O = T;

    open spec fn wf(&self) -> bool {
        forall|groups: Vec<Option<Vec<u8>>>| #[trigger] self.f.requires((groups,))
    }

    open spec fn produces(&self, input: Seq<u8>, res: Outcome<u8, T>) -> bool {
        match res {
            Ok(_) => exists|groups: Vec<Option<Vec<u8>>>| #[trigger] captured_via(self.f, input, res, groups),
            Err(e) => e == ParseError::MatchFailed,
        }
    }

    fn parse<'a>(&self, data: &'a [u8]) -> (r: ParseResult<&'a [u8], T>) {
        match find_captures(&self.regex, data) {
            Some((end, groups)) => {
                let ghost g = groups;
                let o = (self.f)(groups);
                let r = Ok((o, vstd::slice::slice_subrange(data, end, data.len())));
                assert(captured_via(self.f, data@, outcome_of(r), g));
                r
            },
            None => Err(ParseError::MatchFailed),
        }
    }
}

/// A parser for the first match of `r`, with output `l`.
pub fn rlit<T: Clone>(r: Regex, l: T) -> (p: RegexLiteralParser<T>)
    ensures
        p.regex == r,
        p.literal == l,
{
    RegexLiteralParser { regex: r, literal: l }
}

/// A parser for a match of the pattern `s` at the start of the input, with output `l`; `None`
/// when `^` followed by `s` is not a valid pattern.
pub fn str_lit<T: Clone>(s: &str, l: T) -> (p: Option<RegexLiteralParser<T>>)
    ensures
        p is Some <==> pattern_compiles(seq!['^'] + s@),
        p matches Some(q) ==> q.literal == l,
{
    let anchored = String::from_str("^").concat(s);
    proof {
        reveal_strlit("^");
        assert(anchored@ =~= seq!['^'] + s@);
    }
    match compile(anchored.as_str()) {
        Some(regex) => Some(RegexLiteralParser { regex, literal: l }),
        None => None,
    }
}

/// A parser for the first match of the pattern `reg`, whose output is `f` applied to the
/// capture groups; `None` when `reg` is not a valid pattern.
pub fn capture<T, F: Fn(Vec<Option<Vec<u8>>>) -> T>(reg: &str, f: F) -> (p: Option<
    RegexCapturesParser<F>,
>)
    ensures
        p is Some <==> pattern_compiles(reg@),
        p matches Some(q) ==> q.f == f,
{
    match compile(reg) {
        Some(regex) => Some(RegexCapturesParser { regex, f }),
        None => None,
    }
}

} // verus!
