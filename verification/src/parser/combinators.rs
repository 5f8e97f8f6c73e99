//! Tools for parsing log files: quoting and the parser combinators.

use vstd::prelude::*;

use crate::parser::text::{
    chars_of, find, find_char, is_whitespace, lemma_find, lemma_trim_start,
    lemma_trim_start_skips_white_space, listed_white_space, prefix_to, push_char,
    strip_prefix_char, strip_prefix_str, suffix_from, trim_start, trim_start_str,
};
use crate::parser::traits::{
    leaves_suffix, lemma_suffix_refl, lemma_suffix_trans, parsed_as, Mapping, Parser, SpecResult,
};

verus! {

// ---------------------------------------------------------------------------
// Quoting
// ---------------------------------------------------------------------------

/// The escaped form of one character: a backslash or a quote gets a
/// backslash in front of it, anything else stands for itself.
pub open spec fn escape_char(c: char) -> Seq<char> {
    if c == '\\' || c == '"' {
        seq!['\\', c]
    } else {
        seq![c]
    }
}

/// The escaped form of `s`, character by character.
pub open spec fn escape(s: Seq<char>) -> Seq<char>
    decreases s.len(),
{
    if s.len() == 0 {
        Seq::empty()
    } else {
        escape_char(s[0]) + escape(s.drop_first())
    }
}

/// `s` escaped and wrapped in quotes.
pub open spec fn spec_quote(s: Seq<char>) -> Seq<char> {
    seq!['"'] + escape(s) + seq!['"']
}

/// `r` with `p` put in front of its value.
pub open spec fn prepend(p: Seq<char>, r: SpecResult<Seq<char>>) -> SpecResult<Seq<char>> {
    match r {
        Ok((rest, v)) => Ok((rest, p + v)),
        Err(e) => Err(e),
    }
}

/// Reads the inside of a quoted string, up to and including its closing
/// quote: a backslash takes the next character literally.
pub open spec fn unquote_body(s: Seq<char>) -> SpecResult<Seq<char>>
    decreases s.len(),
{
    if s.len() == 0 {
        Err(())
    } else if s[0] == '"' {
        Ok((s.drop_first(), Seq::empty()))
    } else if s[0] == '\\' {
        if s.len() < 2 {
            Err(())
        } else {
            prepend(seq![s[1]], unquote_body(s.skip(2)))
        }
    } else {
        prepend(seq![s[0]], unquote_body(s.drop_first()))
    }
}

/// Reads a quoted string with escapes at the start of `s`.
pub open spec fn spec_unquote(s: Seq<char>) -> SpecResult<Seq<char>> {
    if s.len() > 0 && s[0] == '"' {
        unquote_body(s.drop_first())
    } else {
        Err(())
    }
}

/// Reads a quoted string without escapes at the start of `s`: the text up to
/// the first following quote, which must not be empty nor end in a
/// backslash.
pub open spec fn spec_unquote_non_escaped(s: Seq<char>) -> SpecResult<Seq<char>> {
    if s.len() > 0 && s[0] == '"' {
        let body = s.drop_first();
        match find(body, '"') {
            Some(j) => if j == 0 || body[j - 1] == '\\' {
                Err(())
            } else {
                Ok((body.skip(j + 1), body.take(j)))
            },
            None => Err(()),
        }
    } else {
        Err(())
    }
}

/// Escaping distributes over concatenation.
pub proof fn lemma_escape_concat(a: Seq<char>, b: Seq<char>)
    ensures
        escape(a + b) == escape(a) + escape(b),
    decreases a.len(),
{
    if a.len() == 0 {
        assert(a + b =~= b);
    } else {
        lemma_escape_concat(a.drop_first(), b);
        assert((a + b).drop_first() =~= a.drop_first() + b);
        assert(escape(a + b) =~= escape(a) + escape(b));
    }
}

/// Whatever `unquote_body` reads, it leaves a suffix of its input.
pub proof fn lemma_unquote_body_suffix(s: Seq<char>)
    ensures
        leaves_suffix(s, unquote_body(s)),
    decreases s.len(),
{
    if s.len() > 0 && s[0] != '"' {
        if s[0] == '\\' {
            if s.len() >= 2 {
                lemma_unquote_body_suffix(s.skip(2));
                if let Ok((rest, _)) = unquote_body(s.skip(2)) {
                    assert(rest =~= s.subrange(s.len() - rest.len(), s.len() as int));
                }
            }
        } else {
            lemma_unquote_body_suffix(s.drop_first());
            if let Ok((rest, _)) = unquote_body(s.drop_first()) {
                assert(rest =~= s.subrange(s.len() - rest.len(), s.len() as int));
            }
        }
    } else if s.len() > 0 {
        assert(s.drop_first() =~= s.subrange(1, s.len() as int));
    }
}

/// Whatever `spec_unquote` reads, it leaves a suffix of its input.
pub proof fn lemma_unquote_suffix(s: Seq<char>)
    ensures
        leaves_suffix(s, spec_unquote(s)),
{
    if s.len() > 0 && s[0] == '"' {
        lemma_unquote_body_suffix(s.drop_first());
        if let Ok((rest, _)) = spec_unquote(s) {
            assert(rest =~= s.subrange(s.len() - rest.len(), s.len() as int));
        }
    }
}

/// Whatever `spec_unquote_non_escaped` reads, it leaves a suffix of its input.
pub proof fn lemma_unquote_non_escaped_suffix(s: Seq<char>)
    ensures
        leaves_suffix(s, spec_unquote_non_escaped(s)),
{
    if s.len() > 0 && s[0] == '"' {
        lemma_find(s.drop_first(), '"');
        if let Ok((rest, _)) = spec_unquote_non_escaped(s) {
            assert(rest =~= s.subrange(s.len() - rest.len(), s.len() as int));
        }
    }
}

/// Reading the inside of an escaped text back gives the text and leaves what
/// followed the closing quote.
pub proof fn lemma_unquote_body_escape(s: Seq<char>, rest: Seq<char>)
    ensures
        unquote_body(escape(s) + seq!['"'] + rest) == Ok::<(Seq<char>, Seq<char>), ()>((rest, s)),
    decreases s.len(),
{
    let t = escape(s) + seq!['"'] + rest;
    if s.len() == 0 {
        assert(s =~= Seq::<char>::empty());
        assert(t =~= seq!['"'] + rest);
        assert(t.drop_first() =~= rest);
    } else {
        let c = s[0];
        let tail = s.drop_first();
        lemma_unquote_body_escape(tail, rest);
        let u = escape(tail) + seq!['"'] + rest;
        assert(escape(s) == escape_char(c) + escape(tail));
        assert(seq![c] + tail =~= s);
        if c == '\\' || c == '"' {
            assert(t =~= seq!['\\', c] + u);
            assert(t[0] == '\\' && t[1] == c);
            assert(t.skip(2) =~= u);
            assert(unquote_body(t) == prepend(seq![c], unquote_body(u)));
        } else {
            assert(t =~= seq![c] + u);
            assert(t[0] == c);
            assert(t.drop_first() =~= u);
            assert(unquote_body(t) == prepend(seq![c], unquote_body(u)));
        }
    }
}

/// What [`quote`] writes, [`do_unquote`] reads back: unquoting a quoted text
/// followed by anything gives the text and leaves what followed.
pub proof fn lemma_unquote_quote(s: Seq<char>, rest: Seq<char>)
    ensures
        spec_unquote(spec_quote(s) + rest) == Ok::<(Seq<char>, Seq<char>), ()>((rest, s)),
{
    let t = spec_quote(s) + rest;
    lemma_unquote_body_escape(s, rest);
    assert(t.drop_first() =~= escape(s) + seq!['"'] + rest);
}

/// A text with no quote and no backslash is its own escaped form.
pub proof fn lemma_escape_plain(s: Seq<char>)
    requires
        forall|k: int| 0 <= k < s.len() ==> s[k] != '"' && s[k] != '\\',
    ensures
        escape(s) == s,
    decreases s.len(),
{
    if s.len() > 0 {
        lemma_escape_plain(s.drop_first());
        assert(seq![s[0]] + s.drop_first() =~= s);
    }
}

/// On a quoted non-empty text that holds no quote and no backslash, the
/// reader without escapes agrees with [`do_unquote`]: both give the text and
/// leave what followed the closing quote.
pub proof fn lemma_unquote_non_escaped_agrees(s: Seq<char>, rest: Seq<char>)
    requires
        s.len() > 0,
        forall|k: int| 0 <= k < s.len() ==> s[k] != '"' && s[k] != '\\',
    ensures
        spec_unquote_non_escaped(spec_quote(s) + rest) == Ok::<(Seq<char>, Seq<char>), ()>(
            (rest, s),
        ),
        spec_unquote(spec_quote(s) + rest) == spec_unquote_non_escaped(spec_quote(s) + rest),
{
    lemma_unquote_quote(s, rest);
    lemma_escape_plain(s);
    let t = spec_quote(s) + rest;
    let body = t.drop_first();
    assert(body =~= s + seq!['"'] + rest);
    lemma_find(body, '"');
    let j = s.len() as int;
    assert(body[j] == '"');
    assert forall|k: int| 0 <= k < j implies body[k] != '"' by {
        assert(body[k] == s[k]);
    }
    assert(find(body, '"') == Some(j)) by {
        if let Some(i) = find(body, '"') {
            if i < j {
                assert(body[i] == s[i]);
            }
        }
    }
    assert(body[j - 1] == s[j - 1]);
    assert(body.take(j) =~= s);
    assert(body.skip(j + 1) =~= rest);
}

/// Wraps `input` in quotes, escaping the quotes and backslashes it holds.
pub fn quote(input: &str) -> (result: String)
    ensures
        result@ == spec_quote(input@),
{
    let v = chars_of(input);
    let n = v.len();
    let mut result = String::new();
    push_char(&mut result, '"');
    let mut i: usize = 0;
    while i < n
        invariant
            n == v@.len(),
            v@ == input@,
            i <= n,
            result@ == seq!['"'] + escape(input@.take(i as int)),
        decreases n - i,
    {
        let c = v[i];
        proof {
            lemma_escape_concat(input@.take(i as int), seq![c]);
            assert(input@.take(i + 1) =~= input@.take(i as int) + seq![c]);
            assert(escape(seq![c]) =~= escape_char(c)) by {
                assert(seq![c].drop_first() =~= Seq::<char>::empty());
                reveal_with_fuel(escape, 2);
            }
        }
        if c == '\\' || c == '"' {
            push_char(&mut result, '\\');
        }
        push_char(&mut result, c);
        assert(result@ =~= seq!['"'] + escape(input@.take(i + 1)));
        i = i + 1;
    }
    assert(input@.take(n as int) =~= input@);
    push_char(&mut result, '"');
    assert(result@ =~= spec_quote(input@));
    result
}

/// Reads a quoted string that [`quote`] made, at the start of `input`; hands
/// back what follows the closing quote and the unescaped text.
pub fn do_unquote(input: &str) -> (res: Result<(&str, String), ()>)
    ensures
        parsed_as(res, spec_unquote(input@)),
{
    let v = chars_of(input);
    let n = v.len();
    if n == 0 || v[0] != '"' {
        return Err(());
    }
    let mut out = String::new();
    let mut i: usize = 1;
    assert(input@.drop_first() =~= input@.skip(1));
    assert(out@ + Seq::<char>::empty() =~= Seq::<char>::empty());
    while i < n
        invariant
            n == v@.len(),
            v@ == input@,
            1 <= i <= n,
            input@[0] == '"',
            spec_unquote(input@) == prepend(out@, unquote_body(input@.skip(i as int))),
        decreases n - i,
    {
        let c = v[i];
        let ghost s = input@.skip(i as int);
        assert(s[0] == c);
        if c == '"' {
            assert(s.drop_first() =~= input@.skip(i + 1));
            assert(out@ + Seq::<char>::empty() =~= out@);
            return Ok((suffix_from(input, i + 1, n), out));
        } else if c == '\\' {
            if i + 1 < n {
                let d = v[i + 1];
                assert(s[1] == d);
                assert(s.skip(2) =~= input@.skip(i + 2));
                proof {
                    let r = unquote_body(input@.skip(i + 2));
                    assert(prepend(out@, prepend(seq![d], r)) == prepend(out@.push(d), r)) by {
                        if let Ok((rest, w)) = r {
                            assert(out@ + (seq![d] + w) =~= out@.push(d) + w);
                        }
                    }
                }
                push_char(&mut out, d);
                i = i + 2;
            } else {
                return Err(());
            }
        } else {
            assert(s.drop_first() =~= input@.skip(i + 1));
            proof {
                let r = unquote_body(input@.skip(i + 1));
                assert(prepend(out@, prepend(seq![c], r)) == prepend(out@.push(c), r)) by {
                    if let Ok((rest, w)) = r {
                        assert(out@ + (seq![c] + w) =~= out@.push(c) + w);
                    }
                }
            }
            push_char(&mut out, c);
            i = i + 1;
        }
    }
    Err(())
}

/// Reads a quoted string without escapes at the start of `input`: a shorter
/// form of [`do_unquote`] for text that holds no quotes.
pub fn do_unquote_non_escaped(input: &str) -> (res: Result<(&str, &str), ()>)
    ensures
        parsed_as(res, spec_unquote_non_escaped(input@)),
{
    let body = match strip_prefix_char(input, '"') {
        Some(body) => body,
        None => return Err(()),
    };
    let quote_idx = match find_char(body, '"') {
        Some(j) => j,
        None => return Err(()),
    };
    proof {
        lemma_find(body@, '"');
    }
    if quote_idx == 0 || body.get_char(quote_idx - 1) == '\\' {
        return Err(());
    }
    let n = body.unicode_len();
    Ok((suffix_from(body, quote_idx + 1, n), prefix_to(body, quote_idx)))
}

} // verus!

verus! {

// ---------------------------------------------------------------------------
// Parsers of text
// ---------------------------------------------------------------------------

/// Parser of a quoted string with escapes (see [`quote`]).
#[derive(Debug, Clone)]
pub struct Unquote;

impl Parser for Unquote {
    type Dest = String;

    open spec fn spec_parse(&self, input: Seq<char>) -> SpecResult<Seq<char>> {
        spec_unquote(input)
    }

    proof fn lemma_parse_suffix(&self, input: Seq<char>) {
        lemma_unquote_suffix(input);
    }

    fn parse<'a>(&self, input: &'a str) -> (res: Result<(&'a str, String), ()>) {
        do_unquote(input)
    }
}

/// Parser of a fixed string (as `nom::bytes::complete::tag`).
#[derive(Debug, Clone)]
pub struct Tag {
    pub tag: &'static str,
}

impl Parser for Tag {
    type Dest = ();

    open spec fn spec_parse(&self, input: Seq<char>) -> SpecResult<()> {
        if self.tag@.is_prefix_of(input) {
            Ok((input.skip(self.tag@.len() as int), ()))
        } else {
            Err(())
        }
    }

    proof fn lemma_parse_suffix(&self, input: Seq<char>) {
        if self.tag@.is_prefix_of(input) {
            let rest = input.skip(self.tag@.len() as int);
            assert(rest =~= input.subrange(input.len() - rest.len(), input.len() as int));
        }
    }

    fn parse<'a>(&self, input: &'a str) -> (res: Result<(&'a str, ()), ()>) {
        match strip_prefix_str(input, self.tag) {
            Some(rest) => Ok((rest, ())),
            None => Err(()),
        }
    }
}

/// Parser of a [tag](Tag) wrapped in quotes.
#[derive(Debug, Clone)]
pub struct QuotedTag(pub Tag);

impl QuotedTag {
    /// The parser of `tag` in quotes.
    pub fn new(tag: &'static str) -> (p: Self)
        ensures
            p == QuotedTag(Tag { tag }),
    {
        Self(Tag { tag })
    }
}

impl Parser for QuotedTag {
    type Dest = ();

    open spec fn spec_parse(&self, input: Seq<char>) -> SpecResult<()> {
        match spec_unquote_non_escaped(input) {
            Ok((rest, text)) => if text == self.0.tag@ {
                Ok((rest, ()))
            } else {
                Err(())
            },
            Err(e) => Err(e),
        }
    }

    proof fn lemma_parse_suffix(&self, input: Seq<char>) {
        lemma_unquote_non_escaped_suffix(input);
    }

    fn parse<'a>(&self, input: &'a str) -> (res: Result<(&'a str, ()), ()>) {
        let (remaining, candidate) = do_unquote_non_escaped(input)?;
        let (after, _) = self.0.parse(candidate)?;
        if !after.is_empty() {
            return Err(());
        }
        proof {
            assert(self.0.tag@ =~= candidate@);
        }
        Ok((remaining, ()))
    }
}

// ---------------------------------------------------------------------------
// Combinators
// ---------------------------------------------------------------------------

/// Runs its parser on the input without leading white space, and hands back
/// what is left without leading white space.
#[derive(Debug, Clone)]
pub struct StripWhitespace<T> {
    pub parser: T,
}

impl<T: Parser> Parser for StripWhitespace<T> {
    type Dest = T::Dest;

    open spec fn spec_parse(&self, input: Seq<char>) -> SpecResult<<T::Dest as DeepView>::V> {
        match self.parser.spec_parse(trim_start(input)) {
            Ok((rest, v)) => Ok((trim_start(rest), v)),
            Err(e) => Err(e),
        }
    }

    proof fn lemma_parse_suffix(&self, input: Seq<char>) {
        let t = trim_start(input);
        lemma_trim_start(input);
        self.parser.lemma_parse_suffix(t);
        if let Ok((rest, _)) = self.parser.spec_parse(t) {
            lemma_trim_start(rest);
            lemma_suffix_trans(trim_start(rest), rest, t);
            lemma_suffix_trans(trim_start(rest), t, input);
        }
    }

    fn parse<'a>(&self, input: &'a str) -> (res: Result<(&'a str, T::Dest), ()>) {
        match self.parser.parse(trim_start_str(input)) {
            Ok((remaining, parsed)) => Ok((trim_start_str(remaining), parsed)),
            Err(e) => Err(e),
        }
    }
}

/// Parses what its prefix parser, then its main parser, then its suffix
/// parser read in turn, and keeps only the main parser's value
/// (as `delimited` in `nom`).
#[derive(Debug, Clone)]
pub struct Delimited<Prefix, T, Suffix> {
    pub prefix_to_ignore: Prefix,
    pub dest_parser: T,
    pub suffix_to_ignore: Suffix,
}

impl<Prefix: Parser, T: Parser, Suffix: Parser> Parser for Delimited<Prefix, T, Suffix> {
    type Dest = T::Dest;

    open spec fn spec_parse(&self, input: Seq<char>) -> SpecResult<<T::Dest as DeepView>::V> {
        match self.prefix_to_ignore.spec_parse(input) {
            Ok((r0, _)) => match self.dest_parser.spec_parse(r0) {
                Ok((r1, v)) => match self.suffix_to_ignore.spec_parse(r1) {
                    Ok((r2, _)) => Ok((r2, v)),
                    Err(e) => Err(e),
                },
                Err(e) => Err(e),
            },
            Err(e) => Err(e),
        }
    }

    proof fn lemma_parse_suffix(&self, input: Seq<char>) {
        self.prefix_to_ignore.lemma_parse_suffix(input);
        if let Ok((r0, _)) = self.prefix_to_ignore.spec_parse(input) {
            self.dest_parser.lemma_parse_suffix(r0);
            if let Ok((r1, _)) = self.dest_parser.spec_parse(r0) {
                self.suffix_to_ignore.lemma_parse_suffix(r1);
                if let Ok((r2, _)) = self.suffix_to_ignore.spec_parse(r1) {
                    lemma_suffix_trans(r2, r1, r0);
                    lemma_suffix_trans(r2, r0, input);
                }
            }
        }
    }

    fn parse<'a>(&self, input: &'a str) -> (res: Result<(&'a str, T::Dest), ()>) {
        let (remaining, _) = self.prefix_to_ignore.parse(input)?;
        let (remaining, result) = self.dest_parser.parse(remaining)?;
        match self.suffix_to_ignore.parse(remaining) {
            Ok((remaining, _)) => Ok((remaining, result)),
            Err(e) => Err(e),
        }
    }
}

/// Parses with its parser and converts the value with its mapping.
#[derive(Debug, Clone)]
pub struct Mapped<T, M> {
    pub parser: T,
    pub map: M,
}

impl<T: Parser, M: Mapping<T::Dest>> Parser for Mapped<T, M> {
    type Dest = M::Out;

    open spec fn spec_parse(&self, input: Seq<char>) -> SpecResult<<M::Out as DeepView>::V> {
        match self.parser.spec_parse(input) {
            Ok((rest, v)) => Ok((rest, self.map.spec_apply(v))),
            Err(e) => Err(e),
        }
    }

    proof fn lemma_parse_suffix(&self, input: Seq<char>) {
        self.parser.lemma_parse_suffix(input);
    }

    fn parse<'a>(&self, input: &'a str) -> (res: Result<(&'a str, M::Out), ()>) {
        match self.parser.parse(input) {
            Ok((remaining, pre_result)) => Ok((remaining, self.map.apply(pre_result))),
            Err(e) => Err(e),
        }
    }
}

/// Parses what its prefix parser and then its main parser read in turn, and
/// keeps only the main parser's value (as `preceded` in `nom`).
#[derive(Debug, Clone)]
pub struct Preceded<Prefix, T> {
    pub prefix_to_ignore: Prefix,
    pub dest_parser: T,
}

impl<Prefix: Parser, T: Parser> Parser for Preceded<Prefix, T> {
    type Dest = T::Dest;

    open spec fn spec_parse(&self, input: Seq<char>) -> SpecResult<<T::Dest as DeepView>::V> {
        match self.prefix_to_ignore.spec_parse(input) {
            Ok((r0, _)) => self.dest_parser.spec_parse(r0),
            Err(e) => Err(e),
        }
    }

    proof fn lemma_parse_suffix(&self, input: Seq<char>) {
        self.prefix_to_ignore.lemma_parse_suffix(input);
        if let Ok((r0, _)) = self.prefix_to_ignore.spec_parse(input) {
            self.dest_parser.lemma_parse_suffix(r0);
            if let Ok((r1, _)) = self.dest_parser.spec_parse(r0) {
                lemma_suffix_trans(r1, r0, input);
            }
        }
    }

    fn parse<'a>(&self, input: &'a str) -> (res: Result<(&'a str, T::Dest), ()>) {
        let (remaining, _) = self.prefix_to_ignore.parse(input)?;
        self.dest_parser.parse(remaining)
    }
}

} // verus!

verus! {

/// Requires all of its parsers to read, one after the other, and keeps all of
/// their values (as `all` in `nom`).
#[derive(Debug, Clone)]
pub struct All<T> {
    pub parser: T,
}

impl<A0: Parser, A1: Parser> Parser for All<(A0, A1)> {
    type Dest = (A0::Dest, A1::Dest);

    open spec fn spec_parse(&self, input: Seq<char>) -> SpecResult<
        (<A0::Dest as DeepView>::V, <A1::Dest as DeepView>::V),
    > {
        match self.parser.0.spec_parse(input) {
            Ok((r0, a0)) => match self.parser.1.spec_parse(r0) {
                Ok((r1, a1)) => Ok((r1, (a0, a1))),
                Err(e) => Err(e),
            },
            Err(e) => Err(e),
        }
    }

    proof fn lemma_parse_suffix(&self, input: Seq<char>) {
        self.parser.0.lemma_parse_suffix(input);
        if let Ok((r0, _)) = self.parser.0.spec_parse(input) {
            self.parser.1.lemma_parse_suffix(r0);
            if let Ok((r1, _)) = self.parser.1.spec_parse(r0) {
                lemma_suffix_trans(r1, r0, input);
            }
        }
    }

    fn parse<'a>(&self, input: &'a str) -> (res: Result<(&'a str, (A0::Dest, A1::Dest)), ()>) {
        let (remaining, a0) = self.parser.0.parse(input)?;
        match self.parser.1.parse(remaining) {
            Ok((remaining, a1)) => Ok((remaining, (a0, a1))),
            Err(e) => Err(e),
        }
    }
}

impl<A0: Parser, A1: Parser, A2: Parser> Parser for All<(A0, A1, A2)> {
    type Dest = (A0::Dest, A1::Dest, A2::Dest);

    open spec fn spec_parse(&self, input: Seq<char>) -> SpecResult<
        (<A0::Dest as DeepView>::V, <A1::Dest as DeepView>::V, <A2::Dest as DeepView>::V),
    > {
        match self.parser.0.spec_parse(input) {
            Ok((r0, a0)) => match self.parser.1.spec_parse(r0) {
                Ok((r1, a1)) => match self.parser.2.spec_parse(r1) {
                    Ok((r2, a2)) => Ok((r2, (a0, a1, a2))),
                    Err(e) => Err(e),
                },
                Err(e) => Err(e),
            },
            Err(e) => Err(e),
        }
    }

    proof fn lemma_parse_suffix(&self, input: Seq<char>) {
        self.parser.0.lemma_parse_suffix(input);
        if let Ok((r0, _)) = self.parser.0.spec_parse(input) {
            self.parser.1.lemma_parse_suffix(r0);
            if let Ok((r1, _)) = self.parser.1.spec_parse(r0) {
                self.parser.2.lemma_parse_suffix(r1);
                if let Ok((r2, _)) = self.parser.2.spec_parse(r1) {
                    lemma_suffix_trans(r2, r1, r0);
                    lemma_suffix_trans(r2, r0, input);
                }
            }
        }
    }

    fn parse<'a>(&self, input: &'a str) -> (res: Result<
        (&'a str, (A0::Dest, A1::Dest, A2::Dest)),
        (),
    >) {
        let (remaining, a0) = self.parser.0.parse(input)?;
        let (remaining, a1) = self.parser.1.parse(remaining)?;
        match self.parser.2.parse(remaining) {
            Ok((remaining, a2)) => Ok((remaining, (a0, a1, a2))),
            Err(e) => Err(e),
        }
    }
}

impl<A0: Parser, A1: Parser, A2: Parser, A3: Parser> Parser for All<(A0, A1, A2, A3)> {
    type Dest = (A0::Dest, A1::Dest, A2::Dest, A3::Dest);

    open spec fn spec_parse(&self, input: Seq<char>) -> SpecResult<
        (
            <A0::Dest as DeepView>::V,
            <A1::Dest as DeepView>::V,
            <A2::Dest as DeepView>::V,
            <A3::Dest as DeepView>::V,
        ),
    > {
        match self.parser.0.spec_parse(input) {
            Ok((r0, a0)) => match self.parser.1.spec_parse(r0) {
                Ok((r1, a1)) => match self.parser.2.spec_parse(r1) {
                    Ok((r2, a2)) => match self.parser.3.spec_parse(r2) {
                        Ok((r3, a3)) => Ok((r3, (a0, a1, a2, a3))),
                        Err(e) => Err(e),
                    },
                    Err(e) => Err(e),
                },
                Err(e) => Err(e),
            },
            Err(e) => Err(e),
        }
    }

    proof fn lemma_parse_suffix(&self, input: Seq<char>) {
        self.parser.0.lemma_parse_suffix(input);
        if let Ok((r0, _)) = self.parser.0.spec_parse(input) {
            self.parser.1.lemma_parse_suffix(r0);
            if let Ok((r1, _)) = self.parser.1.spec_parse(r0) {
                self.parser.2.lemma_parse_suffix(r1);
                if let Ok((r2, _)) = self.parser.2.spec_parse(r1) {
                    self.parser.3.lemma_parse_suffix(r2);
                    if let Ok((r3, _)) = self.parser.3.spec_parse(r2) {
                        lemma_suffix_trans(r3, r2, r1);
                        lemma_suffix_trans(r3, r1, r0);
                        lemma_suffix_trans(r3, r0, input);
                    }
                }
            }
        }
    }

    fn parse<'a>(&self, input: &'a str) -> (res: Result<
        (&'a str, (A0::Dest, A1::Dest, A2::Dest, A3::Dest)),
        (),
    >) {
        let (remaining, a0) = self.parser.0.parse(input)?;
        let (remaining, a1) = self.parser.1.parse(remaining)?;
        let (remaining, a2) = self.parser.2.parse(remaining)?;
        match self.parser.3.parse(remaining) {
            Ok((remaining, a3)) => Ok((remaining, (a0, a1, a2, a3))),
            Err(e) => Err(e),
        }
    }
}

/// Reads the value of a pair `"key": value,`. The comma after the value is
/// always required.
#[derive(Debug, Clone)]
pub struct KeyValue<T> {
    pub parser: Delimited<
        All<(StripWhitespace<QuotedTag>, StripWhitespace<Tag>)>,
        StripWhitespace<T>,
        StripWhitespace<Tag>,
    >,
}

impl<T: Parser> Parser for KeyValue<T> {
    type Dest = T::Dest;

    open spec fn spec_parse(&self, input: Seq<char>) -> SpecResult<<T::Dest as DeepView>::V> {
        self.parser.spec_parse(input)
    }

    proof fn lemma_parse_suffix(&self, input: Seq<char>) {
        self.parser.lemma_parse_suffix(input);
    }

    fn parse<'a>(&self, input: &'a str) -> (res: Result<(&'a str, T::Dest), ()>) {
        self.parser.parse(input)
    }
}

} // verus!

verus! {

/// Two parsers in turn, in whichever order gets going first: `a` then `b`
/// when `a` reads the input, otherwise `b` then `a`; the values come in the
/// order `(a, b)`.
pub open spec fn spec_permutation2<A: Parser, B: Parser>(a: A, b: B, input: Seq<char>) -> SpecResult<
    (<A::Dest as DeepView>::V, <B::Dest as DeepView>::V),
> {
    match a.spec_parse(input) {
        Ok((r0, x)) => match b.spec_parse(r0) {
            Ok((r1, y)) => Ok((r1, (x, y))),
            Err(e) => Err(e),
        },
        Err(_) => match b.spec_parse(input) {
            Ok((r0, y)) => match a.spec_parse(r0) {
                Ok((r1, x)) => Ok((r1, (x, y))),
                Err(e) => Err(e),
            },
            Err(e) => Err(e),
        },
    }
}

/// Three parsers in turn, each time taking the first (in the order `a`, `b`,
/// `c`) of those not yet used that reads the input; the values come in the
/// order `(a, b, c)`.
pub open spec fn spec_permutation3<A: Parser, B: Parser, C: Parser>(
    a: A,
    b: B,
    c: C,
    input: Seq<char>,
) -> SpecResult<(<A::Dest as DeepView>::V, <B::Dest as DeepView>::V, <C::Dest as DeepView>::V)> {
    match a.spec_parse(input) {
        Ok((r0, x)) => match spec_permutation2(b, c, r0) {
            Ok((r1, (y, z))) => Ok((r1, (x, y, z))),
            Err(e) => Err(e),
        },
        Err(_) => match b.spec_parse(input) {
            Ok((r0, y)) => match spec_permutation2(a, c, r0) {
                Ok((r1, (x, z))) => Ok((r1, (x, y, z))),
                Err(e) => Err(e),
            },
            Err(_) => match c.spec_parse(input) {
                Ok((r0, z)) => match spec_permutation2(a, b, r0) {
                    Ok((r1, (x, y))) => Ok((r1, (x, y, z))),
                    Err(e) => Err(e),
                },
                Err(e) => Err(e),
            },
        },
    }
}

/// Whatever `spec_permutation2` reads, it leaves a suffix of its input.
pub proof fn lemma_permutation2_suffix<A: Parser, B: Parser>(a: A, b: B, input: Seq<char>)
    ensures
        leaves_suffix(input, spec_permutation2(a, b, input)),
{
    a.lemma_parse_suffix(input);
    b.lemma_parse_suffix(input);
    if let Ok((r0, _)) = a.spec_parse(input) {
        b.lemma_parse_suffix(r0);
        if let Ok((r1, _)) = b.spec_parse(r0) {
            lemma_suffix_trans(r1, r0, input);
        }
    } else if let Ok((r0, _)) = b.spec_parse(input) {
        a.lemma_parse_suffix(r0);
        if let Ok((r1, _)) = a.spec_parse(r0) {
            lemma_suffix_trans(r1, r0, input);
        }
    }
}

/// Runs two parsers as `spec_permutation2` says.
fn parse_permutation2<'a, A: Parser, B: Parser>(a: &A, b: &B, input: &'a str) -> (res: Result<
    (&'a str, (A::Dest, B::Dest)),
    (),
>)
    ensures
        parsed_as(res, spec_permutation2(*a, *b, input@)),
{
    match a.parse(input) {
        Ok((remaining, a0)) => match b.parse(remaining) {
            Ok((remaining, a1)) => Ok((remaining, (a0, a1))),
            Err(e) => Err(e),
        },
        Err(()) => match b.parse(input) {
            Ok((remaining, a1)) => match a.parse(remaining) {
                Ok((remaining, a0)) => Ok((remaining, (a0, a1))),
                Err(e) => Err(e),
            },
            Err(e) => Err(e),
        },
    }
}

/// Reads with all of its parsers, one after the other in whatever order they
/// get going (each time the first one not yet used that reads the input), and
/// gives their values in the order the combinator was built with (as
/// `permutation` in `nom`).
#[derive(Debug, Clone)]
pub struct Permutation<T> {
    pub parsers: T,
}

impl<A0: Parser, A1: Parser> Parser for Permutation<(A0, A1)> {
    type Dest = (A0::Dest, A1::Dest);

    open spec fn spec_parse(&self, input: Seq<char>) -> SpecResult<
        (<A0::Dest as DeepView>::V, <A1::Dest as DeepView>::V),
    > {
        spec_permutation2(self.parsers.0, self.parsers.1, input)
    }

    proof fn lemma_parse_suffix(&self, input: Seq<char>) {
        lemma_permutation2_suffix(self.parsers.0, self.parsers.1, input);
    }

    fn parse<'a>(&self, input: &'a str) -> (res: Result<(&'a str, (A0::Dest, A1::Dest)), ()>) {
        parse_permutation2(&self.parsers.0, &self.parsers.1, input)
    }
}

impl<A0: Parser, A1: Parser, A2: Parser> Parser for Permutation<(A0, A1, A2)> {
    type Dest = (A0::Dest, A1::Dest, A2::Dest);

    open spec fn spec_parse(&self, input: Seq<char>) -> SpecResult<
        (<A0::Dest as DeepView>::V, <A1::Dest as DeepView>::V, <A2::Dest as DeepView>::V),
    > {
        spec_permutation3(self.parsers.0, self.parsers.1, self.parsers.2, input)
    }

    proof fn lemma_parse_suffix(&self, input: Seq<char>) {
        let (a, b, c) = (self.parsers.0, self.parsers.1, self.parsers.2);
        a.lemma_parse_suffix(input);
        b.lemma_parse_suffix(input);
        c.lemma_parse_suffix(input);
        if let Ok((r0, _)) = a.spec_parse(input) {
            lemma_permutation2_suffix(b, c, r0);
            if let Ok((r1, _)) = spec_permutation2(b, c, r0) {
                lemma_suffix_trans(r1, r0, input);
            }
        } else if let Ok((r0, _)) = b.spec_parse(input) {
            lemma_permutation2_suffix(a, c, r0);
            if let Ok((r1, _)) = spec_permutation2(a, c, r0) {
                lemma_suffix_trans(r1, r0, input);
            }
        } else if let Ok((r0, _)) = c.spec_parse(input) {
            lemma_permutation2_suffix(a, b, r0);
            if let Ok((r1, _)) = spec_permutation2(a, b, r0) {
                lemma_suffix_trans(r1, r0, input);
            }
        }
    }

    fn parse<'a>(&self, input: &'a str) -> (res: Result<
        (&'a str, (A0::Dest, A1::Dest, A2::Dest)),
        (),
    >) {
        match self.parsers.0.parse(input) {
            Ok((remaining, a0)) => match parse_permutation2(
                &self.parsers.1,
                &self.parsers.2,
                remaining,
            ) {
                Ok((remaining, (a1, a2))) => Ok((remaining, (a0, a1, a2))),
                Err(e) => Err(e),
            },
            Err(()) => match self.parsers.1.parse(input) {
                Ok((remaining, a1)) => match parse_permutation2(
                    &self.parsers.0,
                    &self.parsers.2,
                    remaining,
                ) {
                    Ok((remaining, (a0, a2))) => Ok((remaining, (a0, a1, a2))),
                    Err(e) => Err(e),
                },
                Err(()) => match self.parsers.2.parse(input) {
                    Ok((remaining, a2)) => match parse_permutation2(
                        &self.parsers.0,
                        &self.parsers.1,
                        remaining,
                    ) {
                        Ok((remaining, (a0, a1))) => Ok((remaining, (a0, a1, a2))),
                        Err(e) => Err(e),
                    },
                    Err(e) => Err(e),
                },
            },
        }
    }
}

/// When two parsers read the input one after the other in the order they were
/// given, the permutation of them reads it the same way.
pub proof fn lemma_permutation2_in_order<A0: Parser, A1: Parser>(
    p: Permutation<(A0, A1)>,
    input: Seq<char>,
)
    requires
        (All { parser: p.parsers }).spec_parse(input) is Ok,
    ensures
        p.spec_parse(input) == (All { parser: p.parsers }).spec_parse(input),
{
}

/// When three parsers read the input one after the other in the order they
/// were given, the permutation of them reads it the same way.
pub proof fn lemma_permutation3_in_order<A0: Parser, A1: Parser, A2: Parser>(
    p: Permutation<(A0, A1, A2)>,
    input: Seq<char>,
)
    requires
        (All { parser: p.parsers }).spec_parse(input) is Ok,
    ensures
        p.spec_parse(input) == (All { parser: p.parsers }).spec_parse(input),
{
}

} // verus!

verus! {

/// `r` with `v` put in front of its list of values.
pub open spec fn prepend_item<V>(v: V, r: SpecResult<Seq<V>>) -> SpecResult<Seq<V>> {
    match r {
        Ok((rest, vs)) => Ok((rest, seq![v] + vs)),
        Err(e) => Err(e),
    }
}

/// `r` with the values `vs` put in front of its list of values.
pub open spec fn prepend_items<V>(vs: Seq<V>, r: SpecResult<Seq<V>>) -> SpecResult<Seq<V>> {
    match r {
        Ok((rest, ws)) => Ok((rest, vs + ws)),
        Err(e) => Err(e),
    }
}

/// The items of a list after its opening bracket: either the closing bracket
/// (what follows it loses its leading white space), or an item, a comma and
/// the items after them, with white space around the comma skipped. (The
/// length test only makes the definition well-founded: by
/// `Parser::lemma_parse_suffix` what follows a comma is always shorter.)
pub open spec fn list_items<T: Parser>(p: T, s: Seq<char>) -> SpecResult<
    Seq<<T::Dest as DeepView>::V>,
>
    decreases s.len(),
{
    if s.len() == 0 {
        Err(())
    } else if s[0] == ']' {
        Ok((trim_start(s.drop_first()), Seq::empty()))
    } else {
        match p.spec_parse(s) {
            Ok((r0, v)) => {
                let r1 = trim_start(r0);
                if r1.len() > 0 && r1[0] == ',' {
                    let r2 = trim_start(r1.drop_first());
                    if r2.len() < s.len() {
                        prepend_item(v, list_items(p, r2))
                    } else {
                        Err(())
                    }
                } else {
                    Err(())
                }
            },
            Err(e) => Err(e),
        }
    }
}

/// Whatever `list_items` reads, it leaves a suffix of its input.
pub proof fn lemma_list_items_suffix<T: Parser>(p: T, s: Seq<char>)
    ensures
        leaves_suffix(s, list_items(p, s)),
    decreases s.len(),
{
    if s.len() > 0 {
        if s[0] == ']' {
            lemma_trim_start(s.drop_first());
            assert(s.drop_first() =~= s.subrange(1, s.len() as int));
            lemma_suffix_trans(trim_start(s.drop_first()), s.drop_first(), s);
        } else {
            p.lemma_parse_suffix(s);
            if let Ok((r0, v)) = p.spec_parse(s) {
                let r1 = trim_start(r0);
                if r1.len() > 0 && r1[0] == ',' {
                    let r2 = trim_start(r1.drop_first());
                    if r2.len() < s.len() {
                        lemma_list_items_suffix(p, r2);
                        if let Ok((rest, _)) = list_items(p, r2) {
                            lemma_trim_start(r0);
                            lemma_trim_start(r1.drop_first());
                            assert(r1.drop_first() =~= r1.subrange(1, r1.len() as int));
                            lemma_suffix_trans(r1, r0, s);
                            lemma_suffix_trans(r1.drop_first(), r1, s);
                            lemma_suffix_trans(r2, r1.drop_first(), s);
                            lemma_suffix_trans(rest, r2, s);
                        }
                    }
                }
            }
        }
    }
}

/// Reads a list in square brackets (`[` and `]`) of any number of items that
/// its parser reads. Every item, the last one too, must be followed by a
/// comma. White space around brackets, items and commas is skipped.
#[derive(Debug, Clone)]
pub struct List<T> {
    pub parser: T,
}

impl<T: Parser> Parser for List<T> {
    type Dest = Vec<T::Dest>;

    open spec fn spec_parse(&self, input: Seq<char>) -> SpecResult<
        Seq<<T::Dest as DeepView>::V>,
    > {
        let t = trim_start(input);
        if t.len() > 0 && t[0] == '[' {
            list_items(self.parser, trim_start(t.drop_first()))
        } else {
            Err(())
        }
    }

    proof fn lemma_parse_suffix(&self, input: Seq<char>) {
        let t = trim_start(input);
        if t.len() > 0 && t[0] == '[' {
            let s = trim_start(t.drop_first());
            lemma_list_items_suffix(self.parser, s);
            if let Ok((rest, _)) = list_items(self.parser, s) {
                lemma_trim_start(input);
                lemma_trim_start(t.drop_first());
                assert(t.drop_first() =~= t.subrange(1, t.len() as int));
                lemma_suffix_trans(t.drop_first(), t, input);
                lemma_suffix_trans(s, t.drop_first(), input);
                lemma_suffix_trans(rest, s, input);
            }
        }
    }

    fn parse<'a>(&self, input: &'a str) -> (res: Result<(&'a str, Vec<T::Dest>), ()>) {
        let opened = match strip_prefix_char(trim_start_str(input), '[') {
            Some(rest) => rest,
            None => return Err(()),
        };
        let mut remaining = trim_start_str(opened);
        let mut result: Vec<T::Dest> = Vec::new();
        assert(result.deep_view() =~= Seq::<<T::Dest as DeepView>::V>::empty());
        assert(prepend_items(result.deep_view(), list_items(self.parser, remaining@))
            =~= list_items(self.parser, remaining@)) by {
            if let Ok((r, ws)) = list_items(self.parser, remaining@) {
                assert(result.deep_view() + ws =~= ws);
            }
        }
        while !remaining.is_empty()
            invariant
                self.spec_parse(input@) == prepend_items(
                    result.deep_view(),
                    list_items(self.parser, remaining@),
                ),
            decreases remaining@.len(),
        {
            let ghost s = remaining@;
            match strip_prefix_char(remaining, ']') {
                Some(after) => {
                    assert(result.deep_view() + Seq::<<T::Dest as DeepView>::V>::empty()
                        =~= result.deep_view());
                    return Ok((trim_start_str(after), result));
                },
                None => {
                    let (new_remaining, item) = self.parser.parse(remaining)?;
                    let trimmed = trim_start_str(new_remaining);
                    let after_comma = match strip_prefix_char(trimmed, ',') {
                        Some(rest) => rest,
                        None => return Err(()),
                    };
                    let next = trim_start_str(after_comma);
                    proof {
                        self.parser.lemma_parse_suffix(s);
                        lemma_trim_start(new_remaining@);
                        lemma_trim_start(after_comma@);
                        let r = list_items(self.parser, next@);
                        assert(prepend_items(result.deep_view(), prepend_item(item.deep_view(), r))
                            == prepend_items(result.deep_view().push(item.deep_view()), r)) by {
                            if let Ok((rest, ws)) = r {
                                assert(result.deep_view() + (seq![item.deep_view()] + ws)
                                    =~= result.deep_view().push(item.deep_view()) + ws);
                            }
                        }
                    }
                    let ghost old_result = result.deep_view();
                    result.push(item);
                    assert(result.deep_view() =~= old_result.push(item.deep_view()));
                    remaining = next;
                },
            }
        }
        Err(())
    }
}

/// Gives the value of the first of its parsers that reads the input (as
/// `alt` in `nom`).
#[derive(Debug, Clone)]
pub struct Alt<T> {
    pub parser: T,
}

impl<D: DeepView, A0: Parser<Dest = D>, A1: Parser<Dest = D>> Parser for Alt<(A0, A1)> {
    type Dest = D;

    open spec fn spec_parse(&self, input: Seq<char>) -> SpecResult<D::V> {
        if self.parser.0.spec_parse(input) is Ok {
            self.parser.0.spec_parse(input)
        } else {
            self.parser.1.spec_parse(input)
        }
    }

    proof fn lemma_parse_suffix(&self, input: Seq<char>) {
        self.parser.0.lemma_parse_suffix(input);
        self.parser.1.lemma_parse_suffix(input);
    }

    fn parse<'a>(&self, input: &'a str) -> (res: Result<(&'a str, D), ()>) {
        if let Ok(ok) = self.parser.0.parse(input) {
            return Ok(ok);
        }
        self.parser.1.parse(input)
    }
}

impl<D: DeepView, A0: Parser<Dest = D>, A1: Parser<Dest = D>, A2: Parser<Dest = D>> Parser for Alt<
    (A0, A1, A2),
> {
    type Dest = D;

    open spec fn spec_parse(&self, input: Seq<char>) -> SpecResult<D::V> {
        if self.parser.0.spec_parse(input) is Ok {
            self.parser.0.spec_parse(input)
        } else if self.parser.1.spec_parse(input) is Ok {
            self.parser.1.spec_parse(input)
        } else {
            self.parser.2.spec_parse(input)
        }
    }

    proof fn lemma_parse_suffix(&self, input: Seq<char>) {
        self.parser.0.lemma_parse_suffix(input);
        self.parser.1.lemma_parse_suffix(input);
        self.parser.2.lemma_parse_suffix(input);
    }

    fn parse<'a>(&self, input: &'a str) -> (res: Result<(&'a str, D), ()>) {
        match self.parser.0.parse(input) {
            Ok(ok) => Ok(ok),
            Err(_) => match self.parser.1.parse(input) {
                Ok(ok) => Ok(ok),
                Err(_) => self.parser.2.parse(input),
            },
        }
    }
}

impl<
    D: DeepView,
    A0: Parser<Dest = D>,
    A1: Parser<Dest = D>,
    A2: Parser<Dest = D>,
    A3: Parser<Dest = D>,
> Parser for Alt<(A0, A1, A2, A3)> {
    type Dest = D;

    open spec fn spec_parse(&self, input: Seq<char>) -> SpecResult<D::V> {
        if self.parser.0.spec_parse(input) is Ok {
            self.parser.0.spec_parse(input)
        } else if self.parser.1.spec_parse(input) is Ok {
            self.parser.1.spec_parse(input)
        } else if self.parser.2.spec_parse(input) is Ok {
            self.parser.2.spec_parse(input)
        } else {
            self.parser.3.spec_parse(input)
        }
    }

    proof fn lemma_parse_suffix(&self, input: Seq<char>) {
        self.parser.0.lemma_parse_suffix(input);
        self.parser.1.lemma_parse_suffix(input);
        self.parser.2.lemma_parse_suffix(input);
        self.parser.3.lemma_parse_suffix(input);
    }

    fn parse<'a>(&self, input: &'a str) -> (res: Result<(&'a str, D), ()>) {
        if let Ok(ok) = self.parser.0.parse(input) {
            return Ok(ok);
        }
        if let Ok(ok) = self.parser.1.parse(input) {
            return Ok(ok);
        }
        if let Ok(ok) = self.parser.2.parse(input) {
            return Ok(ok);
        }
        self.parser.3.parse(input)
    }
}

impl<
    D: DeepView,
    A0: Parser<Dest = D>,
    A1: Parser<Dest = D>,
    A2: Parser<Dest = D>,
    A3: Parser<Dest = D>,
    A4: Parser<Dest = D>,
    A5: Parser<Dest = D>,
    A6: Parser<Dest = D>,
    A7: Parser<Dest = D>,
> Parser for Alt<(A0, A1, A2, A3, A4, A5, A6, A7)> {
    type Dest = D;

    open spec fn spec_parse(&self, input: Seq<char>) -> SpecResult<D::V> {
        if self.parser.0.spec_parse(input) is Ok {
            self.parser.0.spec_parse(input)
        } else if self.parser.1.spec_parse(input) is Ok {
            self.parser.1.spec_parse(input)
        } else if self.parser.2.spec_parse(input) is Ok {
            self.parser.2.spec_parse(input)
        } else if self.parser.3.spec_parse(input) is Ok {
            self.parser.3.spec_parse(input)
        } else if self.parser.4.spec_parse(input) is Ok {
            self.parser.4.spec_parse(input)
        } else if self.parser.5.spec_parse(input) is Ok {
            self.parser.5.spec_parse(input)
        } else if self.parser.6.spec_parse(input) is Ok {
            self.parser.6.spec_parse(input)
        } else {
            self.parser.7.spec_parse(input)
        }
    }

    proof fn lemma_parse_suffix(&self, input: Seq<char>) {
        self.parser.0.lemma_parse_suffix(input);
        self.parser.1.lemma_parse_suffix(input);
        self.parser.2.lemma_parse_suffix(input);
        self.parser.3.lemma_parse_suffix(input);
        self.parser.4.lemma_parse_suffix(input);
        self.parser.5.lemma_parse_suffix(input);
        self.parser.6.lemma_parse_suffix(input);
        self.parser.7.lemma_parse_suffix(input);
    }

    fn parse<'a>(&self, input: &'a str) -> (res: Result<(&'a str, D), ()>) {
        match self.parser.0.parse(input) {
            Ok(ok) => return Ok(ok),
            Err(_) => {},
        }
        match self.parser.1.parse(input) {
            Ok(ok) => return Ok(ok),
            Err(_) => {},
        }
        match self.parser.2.parse(input) {
            Ok(ok) => return Ok(ok),
            Err(_) => {},
        }
        match self.parser.3.parse(input) {
            Ok(ok) => return Ok(ok),
            Err(_) => {},
        }
        match self.parser.4.parse(input) {
            Ok(ok) => return Ok(ok),
            Err(_) => {},
        }
        match self.parser.5.parse(input) {
            Ok(ok) => return Ok(ok),
            Err(_) => {},
        }
        match self.parser.6.parse(input) {
            Ok(ok) => return Ok(ok),
            Err(_) => {},
        }
        self.parser.7.parse(input)
    }
}

/// `count` items read by `p` one after the other.
pub open spec fn take_items<T: Parser>(p: T, count: nat, s: Seq<char>) -> SpecResult<
    Seq<<T::Dest as DeepView>::V>,
>
    decreases count,
{
    if count == 0 {
        Ok((s, Seq::empty()))
    } else {
        match p.spec_parse(s) {
            Ok((r, v)) => prepend_item(v, take_items(p, (count - 1) as nat, r)),
            Err(e) => Err(e),
        }
    }
}

/// Whatever `take_items` reads, it leaves a suffix of its input.
pub proof fn lemma_take_items_suffix<T: Parser>(p: T, count: nat, s: Seq<char>)
    ensures
        leaves_suffix(s, take_items(p, count, s)),
    decreases count,
{
    if count == 0 {
        lemma_suffix_refl(s);
    } else {
        p.lemma_parse_suffix(s);
        if let Ok((r, _)) = p.spec_parse(s) {
            lemma_take_items_suffix(p, (count - 1) as nat, r);
            if let Ok((rest, _)) = take_items(p, (count - 1) as nat, r) {
                lemma_suffix_trans(rest, r, s);
            }
        }
    }
}

/// Applies its parser `count` times in a row (as `take` in `nom`).
pub struct Take<T> {
    pub count: usize,
    pub parser: T,
}

impl<T: Parser> Parser for Take<T> {
    type Dest = Vec<T::Dest>;

    open spec fn spec_parse(&self, input: Seq<char>) -> SpecResult<
        Seq<<T::Dest as DeepView>::V>,
    > {
        take_items(self.parser, self.count as nat, input)
    }

    proof fn lemma_parse_suffix(&self, input: Seq<char>) {
        lemma_take_items_suffix(self.parser, self.count as nat, input);
    }

    fn parse<'a>(&self, input: &'a str) -> (res: Result<(&'a str, Vec<T::Dest>), ()>) {
        let mut remaining = input;
        let mut result: Vec<T::Dest> = Vec::new();
        assert(prepend_items(result.deep_view(), take_items(self.parser, self.count as nat, input@))
            =~= take_items(self.parser, self.count as nat, input@)) by {
            if let Ok((r, ws)) = take_items(self.parser, self.count as nat, input@) {
                assert(result.deep_view() + ws =~= ws);
            }
        }
        for i in 0..self.count
            invariant
                self.spec_parse(input@) == prepend_items(
                    result.deep_view(),
                    take_items(self.parser, (self.count - i) as nat, remaining@),
                ),
        {
            let (new_remaining, new_result) = self.parser.parse(remaining)?;
            proof {
                let r = take_items(self.parser, (self.count - i - 1) as nat, new_remaining@);
                assert(prepend_items(result.deep_view(), prepend_item(new_result.deep_view(), r))
                    == prepend_items(result.deep_view().push(new_result.deep_view()), r)) by {
                    if let Ok((rest, ws)) = r {
                        assert(result.deep_view() + (seq![new_result.deep_view()] + ws)
                            =~= result.deep_view().push(new_result.deep_view()) + ws);
                    }
                }
            }
            let ghost old_result = result.deep_view();
            result.push(new_result);
            assert(result.deep_view() =~= old_result.push(new_result.deep_view()));
            remaining = new_remaining;
        }
        assert(result.deep_view() + Seq::<<T::Dest as DeepView>::V>::empty()
            =~= result.deep_view());
        Ok((remaining, result))
    }
}

} // verus!

verus! {

// ---------------------------------------------------------------------------
// Laws of the combinators
// ---------------------------------------------------------------------------

/// What [`StripWhitespace`] leaves never starts with white space.
pub proof fn lemma_strip_whitespace_trims<T: Parser>(p: StripWhitespace<T>, input: Seq<char>)
    ensures
        p.spec_parse(input) matches Ok((rest, _)) ==> rest == trim_start(rest) && (rest.len()
            > 0 ==> !is_whitespace(rest[0])),
{
    if let Ok((r, _)) = p.parser.spec_parse(trim_start(input)) {
        lemma_trim_start(r);
    }
}

/// [`Preceded`] is [`Delimited`] with nothing after the main parser: a
/// `Delimited` whose suffix is the empty tag reads exactly as the `Preceded`
/// of its prefix and main parser.
pub proof fn lemma_preceded_is_delimited<Prefix: Parser, T: Parser>(
    prefix_to_ignore: Prefix,
    dest_parser: T,
    input: Seq<char>,
)
    ensures
        (Delimited { prefix_to_ignore, dest_parser, suffix_to_ignore: Tag { tag: "" } }).spec_parse(
            input,
        ) == (Preceded { prefix_to_ignore, dest_parser }).spec_parse(input),
{
    reveal_strlit("");
    if let Ok((r0, _)) = prefix_to_ignore.spec_parse(input) {
        if let Ok((r1, _)) = dest_parser.spec_parse(r0) {
            assert(""@.is_prefix_of(r1));
            assert(r1.skip(0) =~= r1);
        }
    }
}

/// When the first of two parsers does not read the input, the permutation of
/// them reads it as the second parser followed by the first.
pub proof fn lemma_permutation2_reversed<A0: Parser, A1: Parser>(
    p: Permutation<(A0, A1)>,
    input: Seq<char>,
)
    requires
        p.parsers.0.spec_parse(input) is Err,
    ensures
        p.spec_parse(input) == match (All { parser: (p.parsers.1, p.parsers.0) }).spec_parse(input) {
            Ok((rest, (y, x))) => Ok((rest, (x, y))),
            Err(e) => Err(e),
        },
{
}

/// A [`Take`] that succeeds gives exactly `count` values.
pub proof fn lemma_take_count<T: Parser>(p: T, count: nat, input: Seq<char>)
    ensures
        take_items(p, count, input) matches Ok((_, vs)) ==> vs.len() == count,
    decreases count,
{
    if count > 0 {
        if let Ok((r, _)) = p.spec_parse(input) {
            lemma_take_count(p, (count - 1) as nat, r);
        }
    }
}

/// What a [`List`] leaves never starts with white space.
pub proof fn lemma_list_items_trims<T: Parser>(p: T, s: Seq<char>)
    ensures
        list_items(p, s) matches Ok((rest, _)) ==> rest.len() > 0 ==> !is_whitespace(rest[0]),
    decreases s.len(),
{
    if s.len() > 0 {
        if s[0] == ']' {
            lemma_trim_start(s.drop_first());
        } else if let Ok((r0, v)) = p.spec_parse(s) {
            let r1 = trim_start(r0);
            if r1.len() > 0 && r1[0] == ',' {
                let r2 = trim_start(r1.drop_first());
                if r2.len() < s.len() {
                    lemma_list_items_trims(p, r2);
                }
            }
        }
    }
}

/// An empty list reads as no values.
pub proof fn lemma_list_empty<T: Parser>(p: List<T>, rest: Seq<char>)
    ensures
        p.spec_parse(seq!['[', ']'] + rest) == Ok::<
            (Seq<char>, Seq<<T::Dest as DeepView>::V>),
            (),
        >((trim_start(rest), Seq::empty())),
{
    let s = seq!['[', ']'] + rest;
    assert(trim_start(s) == s);
    assert(s.drop_first() =~= seq![']'] + rest);
    assert(trim_start(s.drop_first()) == s.drop_first());
    assert(s.drop_first().drop_first() =~= rest);
}

} // verus!

verus! {

// ---------------------------------------------------------------------------
// Lists, item by item
// ---------------------------------------------------------------------------

/// One item of a list: at `u`, which does not start with `]`, `p` reads the
/// value `v`; after white space there is a comma, and the next item starts at
/// `next`, after the comma and the white space that follows it.
pub open spec fn list_step<T: Parser>(
    p: T,
    u: Seq<char>,
    v: <T::Dest as DeepView>::V,
    next: Seq<char>,
) -> bool {
    &&& u.len() > 0
    &&& u[0] != ']'
    &&& match p.spec_parse(u) {
        Ok((t, w)) => {
            let c = trim_start(t);
            &&& w == v
            &&& c.len() > 0
            &&& c[0] == ','
            &&& next == trim_start(c.drop_first())
        },
        Err(_) => false,
    }
}

/// The end of a list: at `u` stands `]`, and what follows it, without its
/// leading white space, is `rest`.
pub open spec fn list_end(u: Seq<char>, rest: Seq<char>) -> bool {
    &&& u.len() > 0
    &&& u[0] == ']'
    &&& rest == trim_start(u.drop_first())
}

/// A reading of a list item by item: `us[i]` is where the item `i` starts, its
/// value is `vs[i]`, and the last position holds the closing bracket.
pub open spec fn list_trace<T: Parser>(
    p: T,
    us: Seq<Seq<char>>,
    vs: Seq<<T::Dest as DeepView>::V>,
    rest: Seq<char>,
) -> bool {
    &&& us.len() == vs.len() + 1
    &&& forall|i: int| 0 <= i < vs.len() ==> list_step(p, #[trigger] us[i], vs[i], us[i + 1])
    &&& list_end(us.last(), rest)
}

/// The positions of the items that `list_items` reads from `s`.
pub open spec fn list_positions<T: Parser>(p: T, s: Seq<char>) -> Seq<Seq<char>>
    decreases s.len(),
{
    if s.len() > 0 && s[0] != ']' {
        match p.spec_parse(s) {
            Ok((r0, _)) => {
                let r1 = trim_start(r0);
                if r1.len() > 0 && r1[0] == ',' {
                    let r2 = trim_start(r1.drop_first());
                    if r2.len() < s.len() {
                        seq![s] + list_positions(p, r2)
                    } else {
                        seq![s]
                    }
                } else {
                    seq![s]
                }
            },
            Err(_) => seq![s],
        }
    } else {
        seq![s]
    }
}

/// What follows an item and its comma is shorter than where the item started.
proof fn lemma_list_step_shorter<T: Parser>(
    p: T,
    u: Seq<char>,
    v: <T::Dest as DeepView>::V,
    next: Seq<char>,
)
    requires
        list_step(p, u, v, next),
    ensures
        next.len() < u.len(),
{
    p.lemma_parse_suffix(u);
    if let Ok((t, _)) = p.spec_parse(u) {
        let c = trim_start(t);
        lemma_trim_start(t);
        lemma_trim_start(c.drop_first());
    }
}

/// A successful `list_items` reads its list item by item at the positions
/// that `list_positions` gives.
pub proof fn lemma_list_items_trace<T: Parser>(p: T, s: Seq<char>)
    ensures
        list_positions(p, s).len() > 0,
        list_positions(p, s)[0] == s,
        list_items(p, s) matches Ok((rest, vs)) ==> list_trace(p, list_positions(p, s), vs, rest),
    decreases s.len(),
{
    if s.len() > 0 && s[0] != ']' {
        if let Ok((r0, v)) = p.spec_parse(s) {
            let r1 = trim_start(r0);
            if r1.len() > 0 && r1[0] == ',' {
                let r2 = trim_start(r1.drop_first());
                if r2.len() < s.len() {
                    lemma_list_items_trace(p, r2);
                    let ps = list_positions(p, r2);
                    let us = seq![s] + ps;
                    if let Ok((rest, ws)) = list_items(p, r2) {
                        let vs = seq![v] + ws;
                        assert(list_items(p, s) == Ok::<
                            (Seq<char>, Seq<<T::Dest as DeepView>::V>),
                            (),
                        >((rest, vs)));
                        assert(list_step(p, us[0], vs[0], us[1]));
                        assert forall|i: int| 0 <= i < vs.len() implies list_step(
                            p,
                            #[trigger] us[i],
                            vs[i],
                            us[i + 1],
                        ) by {
                            if i > 0 {
                                assert(us[i] == ps[i - 1]);
                                assert(us[i + 1] == ps[i]);
                                assert(vs[i] == ws[i - 1]);
                                assert(list_step(p, ps[i - 1], ws[i - 1], ps[(i - 1) + 1]));
                            }
                        }
                        assert(us.last() == ps.last());
                    }
                }
            }
        }
    } else if s.len() > 0 {
        if let Ok((rest, vs)) = list_items(p, s) {
            assert(vs =~= Seq::<<T::Dest as DeepView>::V>::empty());
        }
    }
}

/// A reading of a list item by item is what `list_items` gives.
pub proof fn lemma_trace_list_items<T: Parser>(
    p: T,
    us: Seq<Seq<char>>,
    vs: Seq<<T::Dest as DeepView>::V>,
    rest: Seq<char>,
)
    requires
        list_trace(p, us, vs, rest),
    ensures
        list_items(p, us[0]) == Ok::<(Seq<char>, Seq<<T::Dest as DeepView>::V>), ()>((rest, vs)),
    decreases vs.len(),
{
    if vs.len() == 0 {
        assert(vs =~= Seq::<<T::Dest as DeepView>::V>::empty());
    } else {
        assert(list_step(p, us[0], vs[0], us[1]));
        lemma_list_step_shorter(p, us[0], vs[0], us[1]);
        let us1 = us.drop_first();
        let vs1 = vs.drop_first();
        assert forall|i: int| 0 <= i < vs1.len() implies list_step(
            p,
            #[trigger] us1[i],
            vs1[i],
            us1[i + 1],
        ) by {
            assert(list_step(p, us[i + 1], vs[i + 1], us[(i + 1) + 1]));
        }
        assert(us1.last() == us.last());
        lemma_trace_list_items(p, us1, vs1, rest);
        assert(seq![vs[0]] + vs1 =~= vs);
    }
}

/// A [`List`] read item by item: it reads `s` into the values `vs`, leaving
/// `rest`, exactly when `s` starts (after white space) with `[`, and from the
/// first item on (after the bracket and white space) there is a reading of
/// the list item by item: each item is not `]`, its parser reads its value,
/// a comma follows after white space, the next item starts after the comma and
/// the white space after it; and the last position holds `]`, after which,
/// without its leading white space, comes `rest`.
pub proof fn lemma_list_item_by_item<T: Parser>(
    p: List<T>,
    s: Seq<char>,
    rest: Seq<char>,
    vs: Seq<<T::Dest as DeepView>::V>,
)
    ensures
        p.spec_parse(s) == Ok::<(Seq<char>, Seq<<T::Dest as DeepView>::V>), ()>((rest, vs)) <==> ({
            let t = trim_start(s);
            &&& t.len() > 0
            &&& t[0] == '['
            &&& exists|us: Seq<Seq<char>>|
                us.len() > 0 && us[0] == trim_start(t.drop_first()) && list_trace(
                    p.parser,
                    us,
                    vs,
                    rest,
                )
        }),
{
    let t = trim_start(s);
    if t.len() > 0 && t[0] == '[' {
        let u0 = trim_start(t.drop_first());
        lemma_list_items_trace(p.parser, u0);
        if p.spec_parse(s) == Ok::<(Seq<char>, Seq<<T::Dest as DeepView>::V>), ()>((rest, vs)) {
            let us = list_positions(p.parser, u0);
            assert(us.len() > 0 && us[0] == u0 && list_trace(p.parser, us, vs, rest));
        }
        if exists|us: Seq<Seq<char>>|
            us.len() > 0 && us[0] == u0 && list_trace(p.parser, us, vs, rest) {
            let us = choose|us: Seq<Seq<char>>|
                us.len() > 0 && us[0] == u0 && list_trace(p.parser, us, vs, rest);
            lemma_trace_list_items(p.parser, us, vs, rest);
        }
    }
}

} // verus!

verus! {

/// [`StripWhitespace`] reads the same whether or not its input starts with a
/// character of the Unicode `White_Space` set (tab included).
pub proof fn lemma_strip_whitespace_skips<T: Parser>(p: StripWhitespace<T>, c: char, s: Seq<char>)
    requires
        listed_white_space(c),
    ensures
        p.spec_parse(seq![c] + s) == p.spec_parse(s),
{
    lemma_trim_start_skips_white_space(c, s);
}

} // verus!

verus! {

/// [`Alt`] of two parsers gives the result of the first of them that reads the
/// input, and fails when neither does.
pub proof fn lemma_alt2_first_success<D: DeepView, A0: Parser<Dest = D>, A1: Parser<Dest = D>>(
    p: Alt<(A0, A1)>,
    input: Seq<char>,
)
    ensures
        p.parser.0.spec_parse(input) is Ok ==> p.spec_parse(input) == p.parser.0.spec_parse(input),
        p.parser.0.spec_parse(input) is Err && p.parser.1.spec_parse(input) is Ok ==> p.spec_parse(
            input,
        ) == p.parser.1.spec_parse(input),
        p.parser.0.spec_parse(input) is Err && p.parser.1.spec_parse(input) is Err
            ==> p.spec_parse(input) is Err,
{
}

/// [`Alt`] of three parsers gives the result of the first of them that reads
/// the input, whatever the later ones do, and fails when none does.
pub proof fn lemma_alt3_first_success<
    D: DeepView,
    A0: Parser<Dest = D>,
    A1: Parser<Dest = D>,
    A2: Parser<Dest = D>,
>(p: Alt<(A0, A1, A2)>, input: Seq<char>)
    ensures
        p.parser.0.spec_parse(input) is Ok ==> p.spec_parse(input) == p.parser.0.spec_parse(input),
        p.parser.0.spec_parse(input) is Err && p.parser.1.spec_parse(input) is Ok ==> p.spec_parse(
            input,
        ) == p.parser.1.spec_parse(input),
        p.parser.0.spec_parse(input) is Err && p.parser.1.spec_parse(input) is Err
            && p.parser.2.spec_parse(input) is Ok ==> p.spec_parse(input)
            == p.parser.2.spec_parse(input),
        p.parser.0.spec_parse(input) is Err && p.parser.1.spec_parse(input) is Err
            && p.parser.2.spec_parse(input) is Err ==> p.spec_parse(input) is Err,
{
}

/// [`Alt`] of four parsers gives the result of the first of them that reads
/// the input, whatever the later ones do, and fails when none does.
pub proof fn lemma_alt4_first_success<
    D: DeepView,
    A0: Parser<Dest = D>,
    A1: Parser<Dest = D>,
    A2: Parser<Dest = D>,
    A3: Parser<Dest = D>,
>(p: Alt<(A0, A1, A2, A3)>, input: Seq<char>)
    ensures
        p.parser.0.spec_parse(input) is Ok ==> p.spec_parse(input) == p.parser.0.spec_parse(input),
        p.parser.0.spec_parse(input) is Err && p.parser.1.spec_parse(input) is Ok ==> p.spec_parse(
            input,
        ) == p.parser.1.spec_parse(input),
        p.parser.0.spec_parse(input) is Err && p.parser.1.spec_parse(input) is Err
            && p.parser.2.spec_parse(input) is Ok ==> p.spec_parse(input)
            == p.parser.2.spec_parse(input),
        p.parser.0.spec_parse(input) is Err && p.parser.1.spec_parse(input) is Err
            && p.parser.2.spec_parse(input) is Err && p.parser.3.spec_parse(input) is Ok
            ==> p.spec_parse(input) == p.parser.3.spec_parse(input),
        p.parser.0.spec_parse(input) is Err && p.parser.1.spec_parse(input) is Err
            && p.parser.2.spec_parse(input) is Err && p.parser.3.spec_parse(input) is Err
            ==> p.spec_parse(input) is Err,
{
}

/// The results of eight parsers on one input.
pub open spec fn alt8_results<
    D: DeepView,
    A0: Parser<Dest = D>,
    A1: Parser<Dest = D>,
    A2: Parser<Dest = D>,
    A3: Parser<Dest = D>,
    A4: Parser<Dest = D>,
    A5: Parser<Dest = D>,
    A6: Parser<Dest = D>,
    A7: Parser<Dest = D>,
>(p: Alt<(A0, A1, A2, A3, A4, A5, A6, A7)>, input: Seq<char>) -> Seq<SpecResult<D::V>> {
    seq![
        p.parser.0.spec_parse(input),
        p.parser.1.spec_parse(input),
        p.parser.2.spec_parse(input),
        p.parser.3.spec_parse(input),
        p.parser.4.spec_parse(input),
        p.parser.5.spec_parse(input),
        p.parser.6.spec_parse(input),
        p.parser.7.spec_parse(input),
    ]
}

/// [`Alt`] of eight parsers gives the result of the first of them that reads
/// the input (the parser `i` when those before it fail), whatever the later
/// ones do, and fails when none does.
pub proof fn lemma_alt8_first_success<
    D: DeepView,
    A0: Parser<Dest = D>,
    A1: Parser<Dest = D>,
    A2: Parser<Dest = D>,
    A3: Parser<Dest = D>,
    A4: Parser<Dest = D>,
    A5: Parser<Dest = D>,
    A6: Parser<Dest = D>,
    A7: Parser<Dest = D>,
>(p: Alt<(A0, A1, A2, A3, A4, A5, A6, A7)>, input: Seq<char>, i: int)
    requires
        0 <= i < 8,
    ensures
        ({
            let rs = alt8_results(p, input);
            (forall|j: int| 0 <= j < i ==> rs[j] is Err) && rs[i] is Ok ==> p.spec_parse(input)
                == rs[i]
        }),
        (forall|j: int| 0 <= j < 8 ==> (#[trigger] alt8_results(p, input)[j]) is Err)
            ==> p.spec_parse(input) is Err,
{
    let rs = alt8_results(p, input);
    if (forall|j: int| 0 <= j < i ==> rs[j] is Err) && rs[i] is Ok {
        assert(i >= 1 ==> rs[0] is Err);
        assert(i >= 2 ==> rs[1] is Err);
        assert(i >= 3 ==> rs[2] is Err);
        assert(i >= 4 ==> rs[3] is Err);
        assert(i >= 5 ==> rs[4] is Err);
        assert(i >= 6 ==> rs[5] is Err);
        assert(i >= 7 ==> rs[6] is Err);
    }
    if forall|j: int| 0 <= j < 8 ==> (#[trigger] alt8_results(p, input)[j]) is Err {
        assert(rs[0] is Err && rs[1] is Err && rs[2] is Err && rs[3] is Err);
        assert(rs[4] is Err && rs[5] is Err && rs[6] is Err && rs[7] is Err);
    }
}

/// The permutation of `(a, b, c)` reads the input as `a`, then `b`, then `c` read it one
/// after the other: it leaves what the last one left and gives the values in
/// the order `(a, b, c)`.
pub proof fn lemma_permutation3_order_abc<A0: Parser, A1: Parser, A2: Parser>(
    p: Permutation<(A0, A1, A2)>,
    input: Seq<char>,
    r0: Seq<char>,
    r1: Seq<char>,
    r2: Seq<char>,
    x: <A0::Dest as DeepView>::V,
    y: <A1::Dest as DeepView>::V,
    z: <A2::Dest as DeepView>::V,
)
    requires
        p.parsers.0.spec_parse(input) == Ok::<(Seq<char>, <A0::Dest as DeepView>::V), ()>((r0, x)),
        p.parsers.1.spec_parse(r0) == Ok::<(Seq<char>, <A1::Dest as DeepView>::V), ()>((r1, y)),
        p.parsers.2.spec_parse(r1) == Ok::<(Seq<char>, <A2::Dest as DeepView>::V), ()>((r2, z)),
    ensures
        p.spec_parse(input) == Ok::<
            (Seq<char>, (<A0::Dest as DeepView>::V, <A1::Dest as DeepView>::V, <A2::Dest as DeepView>::V)),
            (),
        >((r2, (x, y, z))),
{
}

/// The permutation of `(a, b, c)` reads the input as `a`, then `c`, then `b`, where `b` does not read what `a` left read it one
/// after the other: it leaves what the last one left and gives the values in
/// the order `(a, b, c)`.
pub proof fn lemma_permutation3_order_acb<A0: Parser, A1: Parser, A2: Parser>(
    p: Permutation<(A0, A1, A2)>,
    input: Seq<char>,
    r0: Seq<char>,
    r1: Seq<char>,
    r2: Seq<char>,
    x: <A0::Dest as DeepView>::V,
    y: <A1::Dest as DeepView>::V,
    z: <A2::Dest as DeepView>::V,
)
    requires
        p.parsers.0.spec_parse(input) == Ok::<(Seq<char>, <A0::Dest as DeepView>::V), ()>((r0, x)),
        p.parsers.2.spec_parse(r0) == Ok::<(Seq<char>, <A2::Dest as DeepView>::V), ()>((r1, z)),
        p.parsers.1.spec_parse(r1) == Ok::<(Seq<char>, <A1::Dest as DeepView>::V), ()>((r2, y)),
        p.parsers.1.spec_parse(r0) is Err,
    ensures
        p.spec_parse(input) == Ok::<
            (Seq<char>, (<A0::Dest as DeepView>::V, <A1::Dest as DeepView>::V, <A2::Dest as DeepView>::V)),
            (),
        >((r2, (x, y, z))),
{
}

/// The permutation of `(a, b, c)` reads the input as `b`, then `a`, then `c`, where `a` does not read the input read it one
/// after the other: it leaves what the last one left and gives the values in
/// the order `(a, b, c)`.
pub proof fn lemma_permutation3_order_bac<A0: Parser, A1: Parser, A2: Parser>(
    p: Permutation<(A0, A1, A2)>,
    input: Seq<char>,
    r0: Seq<char>,
    r1: Seq<char>,
    r2: Seq<char>,
    x: <A0::Dest as DeepView>::V,
    y: <A1::Dest as DeepView>::V,
    z: <A2::Dest as DeepView>::V,
)
    requires
        p.parsers.1.spec_parse(input) == Ok::<(Seq<char>, <A1::Dest as DeepView>::V), ()>((r0, y)),
        p.parsers.0.spec_parse(r0) == Ok::<(Seq<char>, <A0::Dest as DeepView>::V), ()>((r1, x)),
        p.parsers.2.spec_parse(r1) == Ok::<(Seq<char>, <A2::Dest as DeepView>::V), ()>((r2, z)),
        p.parsers.0.spec_parse(input) is Err,
    ensures
        p.spec_parse(input) == Ok::<
            (Seq<char>, (<A0::Dest as DeepView>::V, <A1::Dest as DeepView>::V, <A2::Dest as DeepView>::V)),
            (),
        >((r2, (x, y, z))),
{
}

/// The permutation of `(a, b, c)` reads the input as `b`, then `c`, then `a`, where `a` reads neither the input nor what `b` left read it one
/// after the other: it leaves what the last one left and gives the values in
/// the order `(a, b, c)`.
pub proof fn lemma_permutation3_order_bca<A0: Parser, A1: Parser, A2: Parser>(
    p: Permutation<(A0, A1, A2)>,
    input: Seq<char>,
    r0: Seq<char>,
    r1: Seq<char>,
    r2: Seq<char>,
    x: <A0::Dest as DeepView>::V,
    y: <A1::Dest as DeepView>::V,
    z: <A2::Dest as DeepView>::V,
)
    requires
        p.parsers.1.spec_parse(input) == Ok::<(Seq<char>, <A1::Dest as DeepView>::V), ()>((r0, y)),
        p.parsers.2.spec_parse(r0) == Ok::<(Seq<char>, <A2::Dest as DeepView>::V), ()>((r1, z)),
        p.parsers.0.spec_parse(r1) == Ok::<(Seq<char>, <A0::Dest as DeepView>::V), ()>((r2, x)),
        p.parsers.0.spec_parse(input) is Err,
        p.parsers.0.spec_parse(r0) is Err,
    ensures
        p.spec_parse(input) == Ok::<
            (Seq<char>, (<A0::Dest as DeepView>::V, <A1::Dest as DeepView>::V, <A2::Dest as DeepView>::V)),
            (),
        >((r2, (x, y, z))),
{
}

/// The permutation of `(a, b, c)` reads the input as `c`, then `a`, then `b`, where neither `a` nor `b` reads the input read it one
/// after the other: it leaves what the last one left and gives the values in
/// the order `(a, b, c)`.
pub proof fn lemma_permutation3_order_cab<A0: Parser, A1: Parser, A2: Parser>(
    p: Permutation<(A0, A1, A2)>,
    input: Seq<char>,
    r0: Seq<char>,
    r1: Seq<char>,
    r2: Seq<char>,
    x: <A0::Dest as DeepView>::V,
    y: <A1::Dest as DeepView>::V,
    z: <A2::Dest as DeepView>::V,
)
    requires
        p.parsers.2.spec_parse(input) == Ok::<(Seq<char>, <A2::Dest as DeepView>::V), ()>((r0, z)),
        p.parsers.0.spec_parse(r0) == Ok::<(Seq<char>, <A0::Dest as DeepView>::V), ()>((r1, x)),
        p.parsers.1.spec_parse(r1) == Ok::<(Seq<char>, <A1::Dest as DeepView>::V), ()>((r2, y)),
        p.parsers.0.spec_parse(input) is Err,
        p.parsers.1.spec_parse(input) is Err,
    ensures
        p.spec_parse(input) == Ok::<
            (Seq<char>, (<A0::Dest as DeepView>::V, <A1::Dest as DeepView>::V, <A2::Dest as DeepView>::V)),
            (),
        >((r2, (x, y, z))),
{
}

/// The permutation of `(a, b, c)` reads the input as `c`, then `b`, then `a`, where neither `a` nor `b` reads the input and `a` does not read what `c` left read it one
/// after the other: it leaves what the last one left and gives the values in
/// the order `(a, b, c)`.
pub proof fn lemma_permutation3_order_cba<A0: Parser, A1: Parser, A2: Parser>(
    p: Permutation<(A0, A1, A2)>,
    input: Seq<char>,
    r0: Seq<char>,
    r1: Seq<char>,
    r2: Seq<char>,
    x: <A0::Dest as DeepView>::V,
    y: <A1::Dest as DeepView>::V,
    z: <A2::Dest as DeepView>::V,
)
    requires
        p.parsers.2.spec_parse(input) == Ok::<(Seq<char>, <A2::Dest as DeepView>::V), ()>((r0, z)),
        p.parsers.1.spec_parse(r0) == Ok::<(Seq<char>, <A1::Dest as DeepView>::V), ()>((r1, y)),
        p.parsers.0.spec_parse(r1) == Ok::<(Seq<char>, <A0::Dest as DeepView>::V), ()>((r2, x)),
        p.parsers.0.spec_parse(input) is Err,
        p.parsers.1.spec_parse(input) is Err,
        p.parsers.0.spec_parse(r0) is Err,
    ensures
        p.spec_parse(input) == Ok::<
            (Seq<char>, (<A0::Dest as DeepView>::V, <A1::Dest as DeepView>::V, <A2::Dest as DeepView>::V)),
            (),
        >((r2, (x, y, z))),
{
}

} // verus!

verus! {

/// A [`Tag`] reads exactly its text: what starts with the text is read and
/// the text is dropped; what does not start with it is refused.
pub proof fn lemma_tag_reads(text: &'static str, s: Seq<char>, rest: Seq<char>)
    ensures
        (Tag { tag: text }).spec_parse(text@ + rest) == Ok::<(Seq<char>, ()), ()>((rest, ())),
        (Tag { tag: text }).spec_parse(s) is Ok ==> s == text@ + s.skip(text@.len() as int),
{
    assert(text@ =~= (text@ + rest).subrange(0, text@.len() as int));
    assert((text@ + rest).skip(text@.len() as int) =~= rest);
    if (Tag { tag: text }).spec_parse(s) is Ok {
        assert(s =~= text@ + s.skip(text@.len() as int));
    }
}

/// A [`QuotedTag`] of a non-empty key with no quote and no backslash reads
/// that key in quotes and leaves what follows, and refuses any other such key
/// in quotes.
pub proof fn lemma_quoted_tag_reads(key: &'static str, other: Seq<char>, rest: Seq<char>)
    requires
        key@.len() > 0,
        forall|k: int| 0 <= k < key@.len() ==> key@[k] != '"' && key@[k] != '\\',
        other.len() > 0,
        forall|k: int| 0 <= k < other.len() ==> other[k] != '"' && other[k] != '\\',
    ensures
        QuotedTag(Tag { tag: key }).spec_parse(spec_quote(key@) + rest) == Ok::<
            (Seq<char>, ()),
            (),
        >((rest, ())),
        other != key@ ==> QuotedTag(Tag { tag: key }).spec_parse(spec_quote(other) + rest) is Err,
{
    lemma_unquote_non_escaped_agrees(key@, rest);
    lemma_unquote_non_escaped_agrees(other, rest);
}

/// [`Preceded`] keeps what [`All`] of the same two parsers reads, without the
/// first value.
pub proof fn lemma_preceded_is_all<A0: Parser, A1: Parser>(a: A0, b: A1, input: Seq<char>)
    ensures
        (Preceded { prefix_to_ignore: a, dest_parser: b }).spec_parse(input) == match (All {
            parser: (a, b),
        }).spec_parse(input) {
            Ok((rest, (_, y))) => Ok((rest, y)),
            Err(e) => Err(e),
        },
{
}

/// [`Delimited`] keeps what [`All`] of the same three parsers reads, only the
/// middle value.
pub proof fn lemma_delimited_is_all<A0: Parser, A1: Parser, A2: Parser>(
    a: A0,
    b: A1,
    c: A2,
    input: Seq<char>,
)
    ensures
        (Delimited { prefix_to_ignore: a, dest_parser: b, suffix_to_ignore: c }).spec_parse(input)
            == match (All { parser: (a, b, c) }).spec_parse(input) {
            Ok((rest, (_, y, _))) => Ok((rest, y)),
            Err(e) => Err(e),
        },
{
}

/// [`All`] of three parsers reads as [`All`] of the first two, then the third
/// on what they left.
pub proof fn lemma_all3_is_all2_then<A0: Parser, A1: Parser, A2: Parser>(
    a: A0,
    b: A1,
    c: A2,
    input: Seq<char>,
)
    ensures
        (All { parser: (a, b, c) }).spec_parse(input) == match (All { parser: (a, b) }).spec_parse(
            input,
        ) {
            Ok((r, (x, y))) => match c.spec_parse(r) {
                Ok((r2, z)) => Ok((r2, (x, y, z))),
                Err(e) => Err(e),
            },
            Err(e) => Err(e),
        },
{
}

/// [`All`] of four parsers reads as [`All`] of the first three, then the
/// fourth on what they left.
pub proof fn lemma_all4_is_all3_then<A0: Parser, A1: Parser, A2: Parser, A3: Parser>(
    a: A0,
    b: A1,
    c: A2,
    d: A3,
    input: Seq<char>,
)
    ensures
        (All { parser: (a, b, c, d) }).spec_parse(input) == match (All {
            parser: (a, b, c),
        }).spec_parse(input) {
            Ok((r, (x, y, z))) => match d.spec_parse(r) {
                Ok((r2, w)) => Ok((r2, (x, y, z, w))),
                Err(e) => Err(e),
            },
            Err(e) => Err(e),
        },
{
}

/// `count + more` items read as `count` items, then `more` items on what
/// they left, with the values one after the other.
pub proof fn lemma_take_split<T: Parser>(p: T, count: nat, more: nat, s: Seq<char>)
    ensures
        take_items(p, count + more, s) == match take_items(p, count, s) {
            Ok((r, vs)) => match take_items(p, more, r) {
                Ok((r2, ws)) => Ok((r2, vs + ws)),
                Err(e) => Err(e),
            },
            Err(e) => Err(e),
        },
    decreases count,
{
    if count == 0 {
        if let Ok((r2, ws)) = take_items(p, more, s) {
            assert(Seq::<<T::Dest as DeepView>::V>::empty() + ws =~= ws);
        }
    } else {
        if let Ok((r, v)) = p.spec_parse(s) {
            lemma_take_split(p, (count - 1) as nat, more, r);
            assert((count + more - 1) as nat == ((count - 1) as nat + more) as nat);
            if let Ok((r1, vs)) = take_items(p, (count - 1) as nat, r) {
                if let Ok((r2, ws)) = take_items(p, more, r1) {
                    assert(seq![v] + (vs + ws) =~= (seq![v] + vs) + ws);
                }
            }
        }
    }
}

/// One item reads as the parser does, with its value alone in a list.
pub proof fn lemma_take_one<T: Parser>(p: T, s: Seq<char>)
    ensures
        take_items(p, 1, s) == match p.spec_parse(s) {
            Ok((r, v)) => Ok((r, seq![v])),
            Err(e) => Err(e),
        },
{
    if let Ok((r, v)) = p.spec_parse(s) {
        assert(take_items(p, 0, r) == Ok::<
            (Seq<char>, Seq<<T::Dest as DeepView>::V>),
            (),
        >((r, Seq::empty())));
        assert(seq![v] + Seq::<<T::Dest as DeepView>::V>::empty() =~= seq![v]);
        assert(take_items(p, 1, s) == prepend_item(v, take_items(p, 0, r)));
    }
}

} // verus!
