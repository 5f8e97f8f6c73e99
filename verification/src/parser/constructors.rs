//! Constructors of the parsers and combinators.

use vstd::prelude::*;

use crate::parser::combinators::{
    All, Alt, Delimited, KeyValue, List, Mapped, Permutation, Preceded, QuotedTag,
    StripWhitespace, Tag, Take, Unquote,
};
use crate::parser::combinators::{lemma_unquote_non_escaped_agrees, spec_quote};
use crate::parser::text::{
    find, is_whitespace, lemma_find, lemma_trim_start, lemma_trim_start_none, trim_start,
};
use crate::parser::traits::{Mapping, Parser, SpecResult};

verus! {

/// Builds an [`Unquote`].
pub fn unquote() -> (p: Unquote)
    ensures
        p == Unquote,
{
    Unquote
}

/// Builds a [`Tag`].
pub fn tag(text: &'static str) -> (p: Tag)
    ensures
        p == (Tag { tag: text }),
{
    Tag { tag: text }
}

/// Builds a [`QuotedTag`].
pub fn quoted_tag(text: &'static str) -> (p: QuotedTag)
    ensures
        p == QuotedTag(Tag { tag: text }),
{
    QuotedTag(Tag { tag: text })
}

/// Builds a [`StripWhitespace`].
pub fn strip_whitespace<T: Parser>(parser: T) -> (p: StripWhitespace<T>)
    ensures
        p == (StripWhitespace { parser }),
{
    StripWhitespace { parser }
}

/// Builds a [`Delimited`].
pub fn delimited<Prefix: Parser, T: Parser, Suffix: Parser>(
    prefix_to_ignore: Prefix,
    dest_parser: T,
    suffix_to_ignore: Suffix,
) -> (p: Delimited<Prefix, T, Suffix>)
    ensures
        p == (Delimited { prefix_to_ignore, dest_parser, suffix_to_ignore }),
{
    Delimited { prefix_to_ignore, dest_parser, suffix_to_ignore }
}

/// Builds a [`Mapped`].
pub fn map<T: Parser, M: Mapping<T::Dest>>(parser: T, mapping: M) -> (p: Mapped<T, M>)
    ensures
        p == (Mapped { parser, map: mapping }),
{
    Mapped { parser, map: mapping }
}

/// Builds a [`Preceded`].
pub fn preceded<Prefix: Parser, T: Parser>(prefix_to_ignore: Prefix, dest_parser: T) -> (p:
    Preceded<Prefix, T>)
    ensures
        p == (Preceded { prefix_to_ignore, dest_parser }),
{
    Preceded { prefix_to_ignore, dest_parser }
}

/// Builds an [`All`] of two parsers.
pub fn all2<A0: Parser, A1: Parser>(a0: A0, a1: A1) -> (p: All<(A0, A1)>)
    ensures
        p == (All { parser: (a0, a1) }),
{
    All { parser: (a0, a1) }
}

/// Builds an [`All`] of three parsers.
pub fn all3<A0: Parser, A1: Parser, A2: Parser>(a0: A0, a1: A1, a2: A2) -> (p: All<(A0, A1, A2)>)
    ensures
        p == (All { parser: (a0, a1, a2) }),
{
    All { parser: (a0, a1, a2) }
}

/// Builds an [`All`] of four parsers.
pub fn all4<A0: Parser, A1: Parser, A2: Parser, A3: Parser>(a0: A0, a1: A1, a2: A2, a3: A3) -> (p:
    All<(A0, A1, A2, A3)>)
    ensures
        p == (All { parser: (a0, a1, a2, a3) }),
{
    All { parser: (a0, a1, a2, a3) }
}

/// The [`KeyValue`] for the key `key`, whose value `value_parser` reads: the
/// quoted key, a colon, the value and a comma, each after optional white
/// space, with the white space after the comma skipped too.
pub open spec fn spec_key_value<T>(key: &'static str, value_parser: T) -> KeyValue<T> {
    KeyValue {
        parser: Delimited {
            prefix_to_ignore: All {
                parser: (
                    StripWhitespace { parser: QuotedTag(Tag { tag: key }) },
                    StripWhitespace { parser: Tag { tag: ":" } },
                ),
            },
            dest_parser: StripWhitespace { parser: value_parser },
            suffix_to_ignore: StripWhitespace { parser: Tag { tag: "," } },
        },
    }
}

/// Builds a [`KeyValue`] for the key `key`, whose value `value_parser`
/// reads.
pub fn key_value<T: Parser>(key: &'static str, value_parser: T) -> (p: KeyValue<T>)
    ensures
        p == spec_key_value(key, value_parser),
{
    KeyValue {
        parser: delimited(
            all2(strip_whitespace(quoted_tag(key)), strip_whitespace(tag(":"))),
            strip_whitespace(value_parser),
            strip_whitespace(tag(",")),
        ),
    }
}

/// Builds a [`Permutation`] of two parsers.
pub fn permutation2<A0: Parser, A1: Parser>(a0: A0, a1: A1) -> (p: Permutation<(A0, A1)>)
    ensures
        p == (Permutation { parsers: (a0, a1) }),
{
    Permutation { parsers: (a0, a1) }
}

/// Builds a [`Permutation`] of three parsers.
pub fn permutation3<A0: Parser, A1: Parser, A2: Parser>(a0: A0, a1: A1, a2: A2) -> (p:
    Permutation<(A0, A1, A2)>)
    ensures
        p == (Permutation { parsers: (a0, a1, a2) }),
{
    Permutation { parsers: (a0, a1, a2) }
}

/// Builds a [`List`].
pub fn list<T: Parser>(parser: T) -> (p: List<T>)
    ensures
        p == (List { parser }),
{
    List { parser }
}

/// Builds an [`Alt`] of two parsers.
pub fn alt2<D: DeepView, A0: Parser<Dest = D>, A1: Parser<Dest = D>>(a0: A0, a1: A1) -> (p: Alt<
    (A0, A1),
>)
    ensures
        p == (Alt { parser: (a0, a1) }),
{
    Alt { parser: (a0, a1) }
}

/// Builds an [`Alt`] of three parsers.
pub fn alt3<D: DeepView, A0: Parser<Dest = D>, A1: Parser<Dest = D>, A2: Parser<Dest = D>>(
    a0: A0,
    a1: A1,
    a2: A2,
) -> (p: Alt<(A0, A1, A2)>)
    ensures
        p == (Alt { parser: (a0, a1, a2) }),
{
    Alt { parser: (a0, a1, a2) }
}

/// Builds an [`Alt`] of four parsers.
pub fn alt4<
    D: DeepView,
    A0: Parser<Dest = D>,
    A1: Parser<Dest = D>,
    A2: Parser<Dest = D>,
    A3: Parser<Dest = D>,
>(a0: A0, a1: A1, a2: A2, a3: A3) -> (p: Alt<(A0, A1, A2, A3)>)
    ensures
        p == (Alt { parser: (a0, a1, a2, a3) }),
{
    Alt { parser: (a0, a1, a2, a3) }
}

/// Builds an [`Alt`] of eight parsers.
pub fn alt8<
    D: DeepView,
    A0: Parser<Dest = D>,
    A1: Parser<Dest = D>,
    A2: Parser<Dest = D>,
    A3: Parser<Dest = D>,
    A4: Parser<Dest = D>,
    A5: Parser<Dest = D>,
    A6: Parser<Dest = D>,
    A7: Parser<Dest = D>,
>(a0: A0, a1: A1, a2: A2, a3: A3, a4: A4, a5: A5, a6: A6, a7: A7) -> (p: Alt<
    (A0, A1, A2, A3, A4, A5, A6, A7),
>)
    ensures
        p == (Alt { parser: (a0, a1, a2, a3, a4, a5, a6, a7) }),
{
    Alt { parser: (a0, a1, a2, a3, a4, a5, a6, a7) }
}

/// Builds a [`Take`].
pub fn take<T: Parser>(count: usize, parser: T) -> (p: Take<T>)
    ensures
        p == (Take { count, parser }),
{
    Take { count, parser }
}

} // verus!

verus! {

/// A pair written `"key":value,` reads as its value: when the value parser
/// reads the value text up to the comma, the [`KeyValue`] of a key with no
/// quote and no backslash in it reads the pair, and leaves what follows the
/// comma without its leading white space.
pub proof fn lemma_key_value_reads<T: Parser>(
    key: &'static str,
    value_parser: T,
    value_text: Seq<char>,
    v: <T::Dest as DeepView>::V,
    rest: Seq<char>,
)
    requires
        key@.len() > 0,
        forall|k: int| 0 <= k < key@.len() ==> key@[k] != '"' && key@[k] != '\\',
        value_text.len() > 0,
        !is_whitespace(value_text[0]),
        value_parser.spec_parse(value_text + seq![','] + rest) == Ok::<
            (Seq<char>, <T::Dest as DeepView>::V),
            (),
        >((seq![','] + rest, v)),
    ensures
        spec_key_value(key, value_parser).spec_parse(
            spec_quote(key@) + seq![':'] + value_text + seq![','] + rest,
        ) == Ok::<(Seq<char>, <T::Dest as DeepView>::V), ()>((trim_start(rest), v)),
{
    reveal_strlit(":");
    reveal_strlit(",");
    let after_key = seq![':'] + value_text + seq![','] + rest;
    let input = spec_quote(key@) + after_key;
    assert(spec_quote(key@) + seq![':'] + value_text + seq![','] + rest =~= input);
    assert(input[0] == '"');
    lemma_trim_start_none(input);
    lemma_unquote_non_escaped_agrees(key@, after_key);
    assert(after_key[0] == ':');
    lemma_trim_start_none(after_key);
    assert(":"@ =~= after_key.subrange(0, 1));
    let after_colon = value_text + seq![','] + rest;
    assert(after_key.skip(1) =~= after_colon);
    assert(after_colon[0] == value_text[0]);
    lemma_trim_start_none(after_colon);
    let after_value = seq![','] + rest;
    lemma_trim_start_none(after_value);
    assert(","@ =~= after_value.subrange(0, 1));
    assert(after_value.skip(1) =~= rest);
    lemma_trim_start(rest);
}

} // verus!

verus! {

/// What a [`KeyValue`] reads, step by step: after white space, the key in
/// quotes; after white space, a colon; after white space, what the value
/// parser reads; after white space, a comma; what is left loses its leading
/// white space. Anything else fails.
pub open spec fn key_value_steps<T: Parser>(key: Seq<char>, value_parser: T, s: Seq<char>) -> SpecResult<
    <T::Dest as DeepView>::V,
> {
    let t = trim_start(s);
    let quoted = seq!['"'] + key + seq!['"'];
    if quoted.is_prefix_of(t) {
        let a = trim_start(t.skip(quoted.len() as int));
        if a.len() > 0 && a[0] == ':' {
            match value_parser.spec_parse(trim_start(a.drop_first())) {
                Ok((c, v)) => {
                    let c1 = trim_start(c);
                    if c1.len() > 0 && c1[0] == ',' {
                        Ok((trim_start(c1.drop_first()), v))
                    } else {
                        Err(())
                    }
                },
                Err(e) => Err(e),
            }
        } else {
            Err(())
        }
    } else {
        Err(())
    }
}

/// For a non-empty key with no quote in it that does not end in a backslash,
/// [`key_value`] reads exactly as [`key_value_steps`] says.
pub proof fn lemma_key_value_steps<T: Parser>(key: &'static str, value_parser: T, s: Seq<char>)
    requires
        key@.len() > 0,
        forall|k: int| 0 <= k < key@.len() ==> key@[k] != '"',
        key@.last() != '\\',
    ensures
        spec_key_value(key, value_parser).spec_parse(s) == key_value_steps(key@, value_parser, s),
{
    reveal_strlit(":");
    reveal_strlit(",");
    let t = trim_start(s);
    let k = key@;
    let quoted = seq!['"'] + k + seq!['"'];
    lemma_trim_start(s);
    // The quoted key.
    let qt = QuotedTag(Tag { tag: key });
    if quoted.is_prefix_of(t) {
        let body = t.drop_first();
        assert(t[0] == quoted[0]);
        let j = k.len() as int;
        assert forall|i: int| 0 <= i < j implies body[i] != '"' by {
            assert(body[i] == t[i + 1]);
            assert(t[i + 1] == quoted[i + 1]);
        }
        assert(body[j] == quoted[j + 1]);
        lemma_find(body, '"');
        assert(find(body, '"') == Some(j)) by {
            if let Some(i) = find(body, '"') {
                if i < j {
                    assert(body[i] != '"');
                }
            }
        }
        assert(body[j - 1] == quoted[j]);
        assert(body.take(j) =~= k) by {
            assert forall|i: int| 0 <= i < j implies body.take(j)[i] == k[i] by {
                assert(body[i] == t[i + 1]);
                assert(t[i + 1] == quoted[i + 1]);
            }
        }
        assert(body.skip(j + 1) =~= t.skip(quoted.len() as int));
        assert(qt.spec_parse(t) == Ok::<(Seq<char>, ()), ()>((t.skip(quoted.len() as int), ())));
    } else {
        assert(qt.spec_parse(t) is Err) by {
            if let Ok((r, _)) = qt.spec_parse(t) {
                let body = t.drop_first();
                lemma_find(body, '"');
                let j = find(body, '"').unwrap();
                assert(body.take(j) == k);
                assert(j == k.len());
                assert(quoted =~= t.subrange(0, quoted.len() as int)) by {
                    assert forall|i: int| 0 <= i < quoted.len() implies quoted[i] == t[i] by {
                        if i == 0 {
                        } else if i <= j {
                            assert(body.take(j)[i - 1] == body[i - 1]);
                        } else {
                            assert(body[j] == '"');
                        }
                    }
                }
            }
        }
    }
    // The colon, the value and the comma.
    if quoted.is_prefix_of(t) {
        let a = trim_start(t.skip(quoted.len() as int));
        lemma_trim_start(t.skip(quoted.len() as int));
        if a.len() > 0 && a[0] == ':' {
            assert(":"@ =~= a.subrange(0, 1));
            assert(a.skip(1) =~= a.drop_first());
            lemma_trim_start(a.drop_first());
            if let Ok((c, v)) = value_parser.spec_parse(trim_start(a.drop_first())) {
                let c1 = trim_start(c);
                lemma_trim_start(c);
                if c1.len() > 0 && c1[0] == ',' {
                    assert(","@ =~= c1.subrange(0, 1));
                    assert(c1.skip(1) =~= c1.drop_first());
                } else {
                    assert(!","@.is_prefix_of(c1)) by {
                        if ","@.is_prefix_of(c1) {
                            assert(c1.subrange(0, 1)[0] == c1[0]);
                        }
                    }
                }
            }
        } else {
            assert(!":"@.is_prefix_of(a)) by {
                if ":"@.is_prefix_of(a) {
                    assert(a.subrange(0, 1)[0] == a[0]);
                }
            }
        }
    }
}

} // verus!
