use analysis::parser::combinators::{do_unquote, do_unquote_non_escaped, quote, Unquote};
use analysis::parser::constructors::{
    all2, all3, all4, alt2, alt3, alt4, alt8, delimited, list, permutation2, permutation3, preceded,
    strip_whitespace, tag, take, unquote,
};
use analysis::parser::stdp::{Byte, U32};
use analysis::parser::traits::Parser;

#[test]
fn quote_escapes_and_wraps() {
    assert_eq!(quote(""), "\"\"".to_string());
    assert_eq!(quote("a\\b\"c"), "\"a\\\\b\\\"c\"".to_string());
}

#[test]
fn unquote_needs_a_closing_quote() {
    assert_eq!(do_unquote("\"abc"), Err(()));
    assert_eq!(do_unquote("\"abc\\"), Err(()));
    assert_eq!(do_unquote("\"\"rest"), Ok(("rest", String::new())));
    assert_eq!(Unquote.parse("\"é\"x"), Ok(("x", "é".to_string())));
}

#[test]
fn unquote_non_escaped_refuses_empty_and_backslash() {
    assert_eq!(do_unquote_non_escaped("\"\"x"), Err(()));
    assert_eq!(do_unquote_non_escaped("\"a\\\"b\""), Err(()));
    assert_eq!(do_unquote_non_escaped("\"ab\"cd"), Ok(("cd", "ab")));
    assert_eq!(do_unquote_non_escaped("\"ab"), Err(()));
}

#[test]
fn preceded_keeps_the_second_value() {
    assert_eq!(preceded(tag("x="), U32).parse("x=7;"), Ok((";", 7)));
    assert_eq!(preceded(tag("x="), U32).parse("y=7;"), Err(()));
}

#[test]
fn all_reads_in_order() {
    assert_eq!(all2(U32, tag(",")).parse("5,"), Ok(("", (5, ()))));
    assert_eq!(
        all3(U32, tag(","), U32).parse("5,6!"),
        Ok(("!", (5, (), 6)))
    );
    assert_eq!(
        all4(Byte, Byte, Byte, Byte).parse("deadbeef"),
        Ok(("", (0xde, 0xad, 0xbe, 0xef)))
    );
    assert_eq!(all2(U32, tag(",")).parse("5;"), Err(()));
}

#[test]
fn alt_takes_the_first_that_reads() {
    assert_eq!(alt2(tag("ab"), tag("a")).parse("abc"), Ok(("c", ())));
    assert_eq!(alt2(tag("a"), tag("ab")).parse("abc"), Ok(("bc", ())));
    assert_eq!(alt3(tag("x"), tag("y"), tag("z")).parse("z!"), Ok(("!", ())));
    assert_eq!(
        alt4(tag("1"), tag("2"), tag("3"), tag("4")).parse("5"),
        Err(())
    );
    assert_eq!(
        alt8(
            tag("0"),
            tag("1"),
            tag("2"),
            tag("3"),
            tag("4"),
            tag("5"),
            tag("6"),
            tag("7")
        )
        .parse("7x"),
        Ok(("x", ()))
    );
}

#[test]
fn permutation_reads_in_any_order() {
    let p = permutation2(preceded(tag("a="), U32), preceded(tag("b="), U32));
    assert_eq!(p.parse("a=1b=2"), Ok(("", (1, 2))));
    assert_eq!(p.parse("b=2a=1"), Ok(("", (1, 2))));
    assert_eq!(p.parse("a=1a=2"), Err(()));
    let q = permutation3(tag("x"), tag("y"), tag("z"));
    assert_eq!(q.parse("zyx."), Ok((".", ((), (), ()))));
    assert_eq!(q.parse("yzx"), Ok(("", ((), (), ()))));
    assert_eq!(q.parse("xx"), Err(()));
}

#[test]
fn permutation_is_greedy() {
    // "x" reads first, so "xy" never gets its turn at the start.
    let p = permutation2(tag("x"), tag("xy"));
    assert_eq!(p.parse("xyx"), Err(()));
}

#[test]
fn take_applies_the_parser_count_times() {
    assert_eq!(take(3, Byte).parse("010203ff"), Ok(("ff", vec![1, 2, 3])));
    assert_eq!(take(0, Byte).parse("zz"), Ok(("zz", vec![])));
    assert_eq!(take(2, Byte).parse("01"), Err(()));
}

#[test]
fn delimited_and_strip_whitespace_compose() {
    assert_eq!(
        delimited(tag("("), strip_whitespace(unquote()), tag(")")).parse("( \"a\" )!"),
        Ok(("!", "a".to_string()))
    );
    assert_eq!(strip_whitespace(tag("a")).parse("\u{2003}a\u{3000}b"), Ok(("b", ())));
}

#[test]
fn preceded_equals_delimited_with_empty_suffix() {
    let a = preceded(tag("<"), U32).parse("<12>");
    let b = delimited(tag("<"), U32, tag("")).parse("<12>");
    assert_eq!(a, b);
    assert_eq!(a, Ok((">", 12)));
}

#[test]
fn unquote_readers_agree_on_plain_text() {
    let q = quote("plain text");
    let input = format!("{}!", q);
    assert_eq!(do_unquote_non_escaped(&input), Ok(("!", "plain text")));
    assert_eq!(do_unquote(&input), Ok(("!", "plain text".to_string())));
}

#[test]
fn numbers_are_never_zero() {
    assert_eq!(U32.parse("0"), Err(()));
    assert_eq!(U32.parse("0x0"), Err(()));
    assert_eq!(U32.parse("4294967295"), Ok(("", u32::MAX)));
    assert_eq!(U32.parse("4294967296"), Err(()));
    assert_eq!(analysis::parser::stdp::I32.parse("-0"), Err(()));
    assert_eq!(analysis::parser::stdp::I32.parse("-2147483648x"), Ok(("x", i32::MIN)));
    assert_eq!(analysis::parser::stdp::I32.parse("+2147483648"), Err(()));
}

#[test]
fn list_needs_a_comma_after_every_item() {
    assert_eq!(list(U32).parse("[1,2]"), Err(()));
    assert_eq!(list(U32).parse("[ 1 ,2 ,]x"), Ok(("x", vec![1, 2])));
    assert_eq!(list(U32).parse("[1,"), Err(()));
}
