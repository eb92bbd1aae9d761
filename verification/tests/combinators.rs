//! The combinator engine exercised over byte and character token streams, in
//! complete and in partial mode.

use sift::cursor::{tokens_of_bytes, tokens_of_str};
use sift::engine::{run_complete, run_partial};
use sift::error::{Kind, Needed, ParseError};
use sift::grammar::{
    alt, be_u16, caseless, delimited, empty, literal, pair, preceded, repeat, separated_pair,
    take, take_till, take_until, take_while, taken, terminated, Grammar, Pred,
};
use sift::outcome::{Outcome, Value};

fn ctoks(s: &str) -> Vec<u32> {
    tokens_of_str(s)
}

fn btoks(b: &[u8]) -> Vec<u32> {
    tokens_of_bytes(b)
}

fn ascii_alpha() -> Pred {
    Pred::Either(
        Box::new(Pred::Within(65, 90)),
        Box::new(Pred::Within(97, 122)),
    )
}

fn one_of(chars: &str) -> Pred {
    Pred::OneOf(ctoks(chars))
}

fn backtrack_at(offset: usize, kind: Kind) -> Outcome {
    Outcome::Backtrack(ParseError {
        offset,
        kind,
        cause: None,
    })
}

fn pair_value(a: Value, b: Value) -> Value {
    Value::Pair(Box::new(a), Box::new(b))
}

#[test]
fn single_element_tuples() {
    let parser = take_while(1, None, ascii_alpha());
    assert_eq!(
        run_complete(&parser, &btoks(b"abc123def")),
        Outcome::Success(Value::Span(0, 3), 3)
    );
    assert_eq!(
        run_complete(&parser, &btoks(b"123def")),
        backtrack_at(0, Kind::Slice)
    );
}

#[test]
fn complete() {
    let err_test = preceded(literal(btoks(b"ijkl")), literal(btoks(b"mnop")));
    let a = btoks(b"ijklmn");
    assert_eq!(run_complete(&err_test, &a), backtrack_at(4, Kind::Literal));
}

#[test]
fn pair_test() {
    let pair_abc_def = pair(literal(btoks(b"abc")), literal(btoks(b"def")));
    assert_eq!(
        run_partial(&pair_abc_def, &btoks(b"abcdefghijkl")),
        Outcome::Success(pair_value(Value::Span(0, 3), Value::Span(3, 6)), 6)
    );
    assert_eq!(
        run_partial(&pair_abc_def, &btoks(b"ab")),
        Outcome::Incomplete(Needed::Size(1))
    );
    assert_eq!(
        run_partial(&pair_abc_def, &btoks(b"abcd")),
        Outcome::Incomplete(Needed::Size(2))
    );
    assert_eq!(
        run_partial(&pair_abc_def, &btoks(b"xxx")),
        backtrack_at(0, Kind::Literal)
    );
    assert_eq!(
        run_partial(&pair_abc_def, &btoks(b"xxxdef")),
        backtrack_at(0, Kind::Literal)
    );
    assert_eq!(
        run_partial(&pair_abc_def, &btoks(b"abcxxx")),
        backtrack_at(3, Kind::Literal)
    );
}

#[test]
fn separated_pair_test() {
    let sep_pair_abc_def = separated_pair(
        literal(btoks(b"abc")),
        literal(btoks(b",")),
        literal(btoks(b"def")),
    );
    assert_eq!(
        run_partial(&sep_pair_abc_def, &btoks(b"abc,defghijkl")),
        Outcome::Success(pair_value(Value::Span(0, 3), Value::Span(4, 7)), 7)
    );
    assert_eq!(
        run_partial(&sep_pair_abc_def, &btoks(b"ab")),
        Outcome::Incomplete(Needed::Size(1))
    );
    assert_eq!(
        run_partial(&sep_pair_abc_def, &btoks(b"abc,d")),
        Outcome::Incomplete(Needed::Size(2))
    );
    assert_eq!(
        run_partial(&sep_pair_abc_def, &btoks(b"xxx")),
        backtrack_at(0, Kind::Literal)
    );
    assert_eq!(
        run_partial(&sep_pair_abc_def, &btoks(b"xxx,def")),
        backtrack_at(0, Kind::Literal)
    );
    assert_eq!(
        run_partial(&sep_pair_abc_def, &btoks(b"abc,xxx")),
        backtrack_at(4, Kind::Literal)
    );
}

#[test]
fn preceded_test() {
    let preceded_abcd_efgh = preceded(literal(btoks(b"abcd")), literal(btoks(b"efgh")));
    assert_eq!(
        run_partial(&preceded_abcd_efgh, &btoks(b"abcdefghijkl")),
        Outcome::Success(Value::Span(4, 8), 8)
    );
    assert_eq!(
        run_partial(&preceded_abcd_efgh, &btoks(b"ab")),
        Outcome::Incomplete(Needed::Size(2))
    );
    assert_eq!(
        run_partial(&preceded_abcd_efgh, &btoks(b"abcde")),
        Outcome::Incomplete(Needed::Size(3))
    );
    assert_eq!(
        run_partial(&preceded_abcd_efgh, &btoks(b"xxx")),
        backtrack_at(0, Kind::Literal)
    );
    assert_eq!(
        run_partial(&preceded_abcd_efgh, &btoks(b"xxxxdef")),
        backtrack_at(0, Kind::Literal)
    );
    assert_eq!(
        run_partial(&preceded_abcd_efgh, &btoks(b"abcdxxx")),
        backtrack_at(4, Kind::Literal)
    );
}

#[test]
fn terminated_test() {
    let terminated_abcd_efgh = terminated(literal(btoks(b"abcd")), literal(btoks(b"efgh")));
    assert_eq!(
        run_partial(&terminated_abcd_efgh, &btoks(b"abcdefghijkl")),
        Outcome::Success(Value::Span(0, 4), 8)
    );
    assert_eq!(
        run_partial(&terminated_abcd_efgh, &btoks(b"ab")),
        Outcome::Incomplete(Needed::Size(2))
    );
    assert_eq!(
        run_partial(&terminated_abcd_efgh, &btoks(b"abcde")),
        Outcome::Incomplete(Needed::Size(3))
    );
    assert_eq!(
        run_partial(&terminated_abcd_efgh, &btoks(b"xxx")),
        backtrack_at(0, Kind::Literal)
    );
    assert_eq!(
        run_partial(&terminated_abcd_efgh, &btoks(b"xxxxdef")),
        backtrack_at(0, Kind::Literal)
    );
    assert_eq!(
        run_partial(&terminated_abcd_efgh, &btoks(b"abcdxxxx")),
        backtrack_at(4, Kind::Literal)
    );
}

#[test]
fn delimited_test() {
    let delimited_abc_def_ghi = delimited(
        literal(btoks(b"abc")),
        literal(btoks(b"def")),
        literal(btoks(b"ghi")),
    );
    assert_eq!(
        run_partial(&delimited_abc_def_ghi, &btoks(b"abcdefghijkl")),
        Outcome::Success(Value::Span(3, 6), 9)
    );
    assert_eq!(
        run_partial(&delimited_abc_def_ghi, &btoks(b"ab")),
        Outcome::Incomplete(Needed::Size(1))
    );
    assert_eq!(
        run_partial(&delimited_abc_def_ghi, &btoks(b"abcde")),
        Outcome::Incomplete(Needed::Size(1))
    );
    assert_eq!(
        run_partial(&delimited_abc_def_ghi, &btoks(b"abcdefgh")),
        Outcome::Incomplete(Needed::Size(1))
    );
    assert_eq!(
        run_partial(&delimited_abc_def_ghi, &btoks(b"xxx")),
        backtrack_at(0, Kind::Literal)
    );
    assert_eq!(
        run_partial(&delimited_abc_def_ghi, &btoks(b"xxxdefghi")),
        backtrack_at(0, Kind::Literal)
    );
    assert_eq!(
        run_partial(&delimited_abc_def_ghi, &btoks(b"abcxxxghi")),
        backtrack_at(3, Kind::Literal)
    );
    assert_eq!(
        run_partial(&delimited_abc_def_ghi, &btoks(b"abcdefxxx")),
        backtrack_at(6, Kind::Literal)
    );
}

#[test]
fn tuple_test() {
    let tuple_3 = pair(be_u16(), pair(take(3), literal(btoks(b"fg"))));
    assert_eq!(
        run_partial(&tuple_3, &btoks(b"abcdefgh")),
        Outcome::Success(
            pair_value(
                Value::Num(0x6162),
                pair_value(Value::Span(2, 5), Value::Span(5, 7)),
            ),
            7,
        )
    );
    assert_eq!(
        run_partial(&tuple_3, &btoks(b"abcd")),
        Outcome::Incomplete(Needed::Size(1))
    );
    assert_eq!(
        run_partial(&tuple_3, &btoks(b"abcde")),
        Outcome::Incomplete(Needed::Size(2))
    );
    assert_eq!(
        run_partial(&tuple_3, &btoks(b"abcdejk")),
        backtrack_at(5, Kind::Literal)
    );
}

#[test]
fn unit_type() {
    assert_eq!(
        run_complete(&empty(), &ctoks("abxsbsh")),
        Outcome::Success(Value::Unit, 0)
    );
    assert_eq!(
        run_complete(&empty(), &ctoks("sdfjakdsas")),
        Outcome::Success(Value::Unit, 0)
    );
    assert_eq!(
        run_complete(&empty(), &ctoks("")),
        Outcome::Success(Value::Unit, 0)
    );
}

#[test]
fn literal_succeed_str() {
    let input = ctoks("Hello World!");
    let g = literal(ctoks("Hello"));
    assert_eq!(run_complete(&g, &input), Outcome::Success(Value::Span(0, 5), 5));
}

#[test]
fn literal_incomplete_str() {
    let input = ctoks("Hello");
    let g = literal(ctoks("Hello World!"));
    assert_eq!(run_complete(&g, &input), backtrack_at(0, Kind::Literal));
}

#[test]
fn literal_error_str() {
    let input = ctoks("Hello World!");
    let g = literal(ctoks("Random"));
    assert_eq!(run_complete(&g, &input), backtrack_at(0, Kind::Literal));
}

#[test]
fn literal_case_insensitive_str() {
    let g = caseless(ctoks("ABcd"));
    assert_eq!(
        run_complete(&g, &ctoks("aBCdefgh")),
        Outcome::Success(Value::Span(0, 4), 4)
    );
    assert_eq!(
        run_complete(&g, &ctoks("abcdefgh")),
        Outcome::Success(Value::Span(0, 4), 4)
    );
    assert_eq!(
        run_complete(&g, &ctoks("ABCDefgh")),
        Outcome::Success(Value::Span(0, 4), 4)
    );
}

#[test]
fn take_succeed_str() {
    let input = ctoks("βèƒôřèÂßÇáƒƭèř");
    assert_eq!(
        run_complete(&take(9), &input),
        Outcome::Success(Value::Span(0, 9), 9)
    );
    assert_eq!(input.len() - 9, 5);
}

#[test]
fn take_incomplete_str() {
    let input = ctoks("βèƒôřèÂßÇá");
    assert_eq!(
        run_partial(&take(13), &input),
        Outcome::Incomplete(Needed::Size(3))
    );
}

#[test]
fn take_until_succeed_str() {
    let input = ctoks("βèƒôřèÂßÇ∂áƒƭèř");
    let g = take_until(ctoks("ÂßÇ∂"));
    assert_eq!(run_complete(&g, &input), Outcome::Success(Value::Span(0, 6), 6));
}

#[test]
fn take_until_incomplete_str() {
    let input = ctoks("βèƒôřè");
    let g = take_until(ctoks("βèƒôřèÂßÇ"));
    assert_eq!(
        run_partial(&g, &input),
        Outcome::Incomplete(Needed::Unknown)
    );
}

#[test]
fn take_until_error_str() {
    let input = ctoks("βèƒôřèÂßÇáƒƭèř");
    let g = take_until(ctoks("Ráñδô₥"));
    assert_eq!(
        run_partial(&g, &input),
        Outcome::Incomplete(Needed::Unknown)
    );
}

#[test]
fn take_while_str() {
    let f = take_while(0, None, ascii_alpha());
    assert_eq!(
        run_partial(&f, &ctoks("")),
        Outcome::Incomplete(Needed::Size(1))
    );
    assert_eq!(
        run_partial(&f, &ctoks("abcd")),
        Outcome::Incomplete(Needed::Size(1))
    );
    assert_eq!(
        run_partial(&f, &ctoks("abcd123")),
        Outcome::Success(Value::Span(0, 4), 4)
    );
    assert_eq!(
        run_partial(&f, &ctoks("123")),
        Outcome::Success(Value::Span(0, 0), 0)
    );
}

#[test]
fn take_while_succeed_none_str() {
    let input = ctoks("βèƒôřèÂßÇáƒƭèř");
    let g = take_while(0, None, one_of("9"));
    assert_eq!(run_complete(&g, &input), Outcome::Success(Value::Span(0, 0), 0));
}

#[test]
fn take_while_succeed_some_str() {
    let input = ctoks("βèƒôřèÂßÇáƒƭèř");
    let g = take_while(0, None, one_of("βèƒôřÂßÇ"));
    assert_eq!(run_complete(&g, &input), Outcome::Success(Value::Span(0, 9), 9));
}

#[test]
fn test_take_while1_str() {
    let f = take_while(1, None, ascii_alpha());
    assert_eq!(
        run_partial(&f, &ctoks("")),
        Outcome::Incomplete(Needed::Size(1))
    );
    assert_eq!(
        run_partial(&f, &ctoks("abcd")),
        Outcome::Incomplete(Needed::Size(1))
    );
    assert_eq!(
        run_partial(&f, &ctoks("abcd123")),
        Outcome::Success(Value::Span(0, 4), 4)
    );
    assert_eq!(run_partial(&f, &ctoks("123")), backtrack_at(0, Kind::Slice));
}

#[test]
fn take_while1_fn_succeed_str() {
    let input = ctoks("βèƒôřèÂßÇáƒƭèř");
    let g = take_while(1, None, one_of("βèƒôřÂßÇ"));
    assert_eq!(run_complete(&g, &input), Outcome::Success(Value::Span(0, 9), 9));
}

#[test]
fn take_while1_set_succeed_str() {
    let input = ctoks("βèƒôřèÂßÇáƒƭèř");
    let g = take_while(1, None, one_of("βèƒôřèÂßÇ"));
    assert_eq!(run_complete(&g, &input), Outcome::Success(Value::Span(0, 9), 9));
}

#[test]
fn take_while1_fn_fail_str() {
    let input = ctoks("βèƒôřèÂßÇáƒƭèř");
    let g = take_while(1, None, one_of("9"));
    assert_eq!(run_complete(&g, &input), backtrack_at(0, Kind::Slice));
}

#[test]
fn take_while1_set_fail_str() {
    let input = ctoks("βèƒôřèÂßÇáƒƭèř");
    let g = take_while(1, None, one_of("Ûñℓúçƙ¥"));
    assert_eq!(run_complete(&g, &input), backtrack_at(0, Kind::Slice));
}

#[test]
fn take_till0_succeed_str() {
    let input = ctoks("βèƒôřèÂßÇáƒƭèř");
    let g = take_till(0, None, one_of("á"));
    assert_eq!(run_complete(&g, &input), Outcome::Success(Value::Span(0, 9), 9));
}

#[test]
fn take_till1_succeed_str() {
    let input = ctoks("βèƒôřèÂßÇáƒƭèř");
    let g = take_till(1, None, one_of("£úçƙ¥á"));
    assert_eq!(run_complete(&g, &input), Outcome::Success(Value::Span(0, 9), 9));
}

#[test]
fn take_till1_failed_str() {
    let input = ctoks("βèƒôřèÂßÇáƒƭèř");
    let g = take_till(1, None, one_of("βúçƙ¥"));
    assert_eq!(run_complete(&g, &input), backtrack_at(0, Kind::Slice));
}

#[test]
fn take_is_a_str() {
    let f = taken(repeat(
        1,
        None,
        alt(literal(ctoks("a")), literal(ctoks("b"))),
    ));
    assert_eq!(
        run_complete(&f, &ctoks("aabbab")),
        Outcome::Success(Value::Span(0, 6), 6)
    );
    assert_eq!(
        run_complete(&f, &ctoks("ababcd")),
        Outcome::Success(Value::Span(0, 4), 4)
    );
}

#[test]
fn utf8_indexing_str() {
    let dot: Grammar = literal(ctoks("."));
    let _ = run_complete(&dot, &ctoks("點"));
}
