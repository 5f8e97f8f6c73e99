use analysis::parser::combinators::{do_unquote, do_unquote_non_escaped, quote, Unquote};
use analysis::parser::constructors::{delimited, key_value, list, quoted_tag, strip_whitespace, tag};
use analysis::parser::stdp;
use analysis::parser::traits::Parser;

#[test]
fn test_quote() {
    assert_eq!(quote(r#"411"#), r#""411""#.to_string());
    assert_eq!(quote(r#"4\11""#), r#""4\\11\"""#.to_string());
}

#[test]
fn test_do_unquote_non_escaped() {
    assert_eq!(
        do_unquote_non_escaped(r#""411""#.into()),
        Ok(("".into(), "411".into()))
    );
    assert_eq!(do_unquote_non_escaped(r#" "411""#.into()), Err(()));
    assert_eq!(do_unquote_non_escaped(r#"411"#.into()), Err(()));
}

#[test]
fn test_unquote() {
    assert_eq!(
        Unquote.parse(r#""411""#.into()),
        Ok(("".into(), "411".into()))
    );
    assert_eq!(Unquote.parse(r#" "411""#.into()), Err(()));
    assert_eq!(Unquote.parse(r#"411"#.into()), Err(()));

    assert_eq!(
        Unquote.parse(r#""ni\\c\"e""#.into()),
        Ok(("".into(), r#"ni\c"e"#.into()))
    );
}

#[test]
fn test_tag() {
    assert_eq!(
        tag("key=").parse("key=value".into()),
        Ok(("value".into(), ()))
    );
    assert_eq!(tag("key=").parse("key:value".into()), Err(()));
}

#[test]
fn test_quoted_tag() {
    assert_eq!(
        quoted_tag("key").parse(r#""key"=value"#.into()),
        Ok(("=value".into(), ()))
    );
    assert_eq!(quoted_tag("key").parse(r#""key:"value"#.into()), Err(()));
    assert_eq!(quoted_tag("key").parse(r#"key=value"#.into()), Err(()));
}

#[test]
fn test_strip_whitespace() {
    assert_eq!(
        strip_whitespace(tag("hello")).parse(" hello world".into()),
        Ok(("world".into(), ()))
    );
    assert_eq!(
        strip_whitespace(tag("hello")).parse("hello".into()),
        Ok(("".into(), ()))
    );
    assert_eq!(
        strip_whitespace(stdp::U32).parse(" 42 answer".into()),
        Ok(("answer".into(), 42))
    );
}

#[test]
fn test_delimited() {
    assert_eq!(
        delimited(tag("["), stdp::U32, tag("]")).parse("[0x32]".into()),
        Ok(("".into(), 0x32))
    );
    assert_eq!(
        delimited(tag("["), stdp::U32, tag("]")).parse("[0x32] nice".into()),
        Ok((" nice".into(), 0x32))
    );
    assert_eq!(
        delimited(tag("["), stdp::U32, tag("]")).parse("0x32]".into()),
        Err(())
    );
    assert_eq!(
        delimited(tag("["), stdp::U32, tag("]")).parse("[0x32".into()),
        Err(())
    );
}

#[test]
fn test_key_value() {
    assert_eq!(
        key_value("key", stdp::U32).parse(r#""key":32,"#.into()),
        Ok(("".into(), 32))
    );
    assert_eq!(
        key_value("key", stdp::U32).parse(r#"key:32,"#.into()),
        Err(())
    );
    assert_eq!(
        key_value("key", stdp::U32).parse(r#""key":32"#.into()),
        Err(())
    );
    assert_eq!(
        key_value("key", stdp::U32).parse(r#" "key" : 32 , nice"#.into()),
        Ok(("nice".into(), 32))
    );
}

#[test]
fn test_list() {
    assert_eq!(
        list(stdp::U32).parse("[1,2,3,4,]".into()),
        Ok(("".into(), vec![1, 2, 3, 4,]))
    );
    assert_eq!(
        list(stdp::U32).parse(" [ 1 , 2 , 3 , 4 , ] nice".into()),
        Ok(("nice".into(), vec![1, 2, 3, 4,]))
    );
    assert_eq!(list(stdp::U32).parse("1,2,3,4,".into()), Err(()));
    assert_eq!(list(stdp::U32).parse("[]".into()), Ok(("".into(), vec![])));
}

#[test]
fn unquote_of_quote_gives_back_the_text() {
    let q = quote(r#"a "b" \c"#);
    let input = format!("{} tail", q);
    assert_eq!(do_unquote(&input), Ok((" tail", r#"a "b" \c"#.to_string())));
}
