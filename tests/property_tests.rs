use peruse::parsers::{boxed, one_of, opt, repsep, ParseError, Parser, ParserCombinator, RepSepParser};
use peruse::slice_parsers::{lit, matcher};
use peruse::utils::skip;

#[derive(Debug, Eq, PartialEq, Clone)]
enum Tok {
    A,
    B,
    C,
}

#[test]
fn literal_takes_matching_token() {
    let input = [7, 8];
    assert_eq!(lit(7).parse(&input), Ok((7, &input[1..])));
}

#[test]
fn literal_mismatch() {
    let input = [8, 7];
    assert_eq!(lit(7).parse(&input), Err(ParseError::Mismatch));
}

#[test]
fn opt_on_empty_input_succeeds() {
    let input: [i32; 0] = [];
    assert_eq!(opt(lit(1)).parse(&input), Ok((None, &input[..])));
}

#[test]
fn opt_failure_keeps_input() {
    let input = [0, 1];
    assert_eq!(opt(lit(1)).parse(&input), Ok((None, &input[0..])));
}

#[test]
fn repeat_without_match_is_empty() {
    let input = [2, 3];
    assert_eq!(lit(1).repeat().parse(&input), Ok((vec![], &input[0..])));
}

#[test]
fn repeat_stops_when_nothing_is_consumed() {
    let input = [1, 1, 2];
    assert_eq!(
        opt(lit(1)).repeat().parse(&input),
        Ok((vec![Some(1), Some(1)], &input[2..]))
    );
}

#[test]
fn map_keeps_remainder_and_error() {
    let input = [1, 2];
    assert_eq!(lit(1).map(|x| x * 10).parse(&input), Ok((10, &input[1..])));
    let bad = [3];
    assert_eq!(lit(1).map(|x| x * 10).parse(&bad), lit(1).parse(&bad).map(|(x, r)| (x * 10, r)));
    assert_eq!(lit(1).map(|x| x * 10).parse(&bad), Err(ParseError::Mismatch));
}

#[test]
fn or_with_always_succeeding_first() {
    let input = [5, 6];
    let always = matcher(|x: i32| Some(x));
    let never = matcher(|_x: i32| None::<i32>);
    assert_eq!(always.or(never).parse(&input), Ok((5, &input[1..])));
}

#[test]
fn or_with_always_failing_first() {
    let input = [5, 6];
    let always = matcher(|x: i32| Some(x + 1));
    let never = matcher(|_x: i32| None::<i32>);
    assert_eq!(never.or(always).parse(&input), Ok((6, &input[1..])));
}

#[test]
fn or_reports_second_error() {
    let input = [2];
    let parser = lit(1).or(matcher(|_x: i32| None::<i32>));
    assert_eq!(parser.parse(&input), Err(ParseError::MatchFailed));
}

#[test]
fn sequence_failures() {
    let input = [1, 3];
    assert_eq!(lit(1).and_then(lit(2)).parse(&input), Err(ParseError::Mismatch));
    let short = [1];
    assert_eq!(lit(1).and_then(lit(2)).parse(&short), Err(ParseError::EndOfInput));
    assert_eq!(lit(1).then_l(lit(2)).parse(&short), Err(ParseError::EndOfInput));
    assert_eq!(lit(1).then_r(lit(2)).parse(&input), Err(ParseError::Mismatch));
}

#[test]
fn repsep_scenario_with_one_of() {
    let input = [Tok::A, Tok::B, Tok::C, Tok::B, Tok::A, Tok::A];
    let parser = repsep(one_of(vec![lit(Tok::A), lit(Tok::C)]), lit(Tok::B));
    assert_eq!(parser.parse(&input), Ok((vec![Tok::A, Tok::C, Tok::A], &input[5..])));
}

#[test]
fn repsep_not_enough_reps() {
    let input = [Tok::A, Tok::B, Tok::A];
    let parser = RepSepParser { rep: lit(Tok::A), sep: lit(Tok::B), min_reps: 3 };
    assert_eq!(parser.parse(&input), Err(ParseError::NotEnoughReps { required: 3, got: 2 }));
}

#[test]
fn repsep_rep_failure_is_escalated() {
    let input = [1, 0, 2];
    assert_eq!(repsep(lit(1), lit(0)).parse(&input), Err(ParseError::Mismatch));
    let empty: [i32; 0] = [];
    assert_eq!(repsep(lit(1), lit(0)).parse(&empty), Err(ParseError::EndOfInput));
}

#[test]
fn one_of_scenario() {
    let input = [2, 3, 4];
    let parser = one_of(vec![lit(2), lit(5)]);
    assert_eq!(parser.parse(&input), Ok((2, &input[1..])));
    let other = [9];
    assert_eq!(parser.parse(&other), Err(ParseError::AllOptionsFailed));
}

#[test]
fn one_of_without_options_fails() {
    let input = [1];
    let parser = one_of(Vec::<peruse::slice_parsers::LiteralParser<i32>>::new());
    assert_eq!(parser.parse(&input), Err(ParseError::AllOptionsFailed));
}

#[test]
fn matcher_rejection_and_end_of_input() {
    let parser = matcher(|x: i32| if x > 0 { Some(x) } else { None });
    let input = [-1];
    assert_eq!(parser.parse(&input), Err(ParseError::MatchFailed));
    let empty: [i32; 0] = [];
    assert_eq!(parser.parse(&empty), Err(ParseError::EndOfInput));
}

#[test]
fn boxed_parser_shares_its_parser() {
    let input = [1, 2];
    let p = boxed(lit(1));
    let q = p.clone();
    assert_eq!(p.parse(&input), Ok((1, &input[1..])));
    assert_eq!(q.parse(&input), Ok((1, &input[1..])));
}

#[test]
fn skip_noise_then_missing_essential() {
    let input = [0, 0];
    assert_eq!(skip(lit(4), lit(0)).parse(&input), Err(ParseError::EndOfInput));
    let ok = [0, 4, 0, 5];
    assert_eq!(skip(lit(4), lit(0)).parse(&ok), Ok((4, &ok[3..])));
}
