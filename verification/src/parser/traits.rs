//! The traits that every parser implements.

use vstd::prelude::*;

verus! {

/// What a parse yields in the model: the unconsumed rest of the input and the
/// model of the parsed value, or failure.
pub type SpecResult<V> = Result<(Seq<char>, V), ()>;

/// `res`, the result of an executable parse, is the one that `spec` describes.
pub open spec fn parsed_as<'a, D: DeepView>(
    res: Result<(&'a str, D), ()>,
    spec: SpecResult<D::V>,
) -> bool {
    match res {
        Ok((rest, value)) => spec == Ok::<(Seq<char>, D::V), ()>((rest@, value.deep_view())),
        Err(_) => spec is Err,
    }
}

/// A parse result that, when it succeeds, leaves a suffix of `input`.
pub open spec fn leaves_suffix<V>(input: Seq<char>, res: SpecResult<V>) -> bool {
    res matches Ok((rest, _)) ==> rest.is_suffix_of(input)
}

/// Being a suffix is transitive.
pub proof fn lemma_suffix_trans(a: Seq<char>, b: Seq<char>, c: Seq<char>)
    requires
        a.is_suffix_of(b),
        b.is_suffix_of(c),
    ensures
        a.is_suffix_of(c),
{
    assert(a =~= c.subrange(c.len() - a.len(), c.len() as int)) by {
        assert forall|i: int| 0 <= i < a.len() implies a[i] == c[c.len() - a.len() + i] by {
            assert(a[i] == b[b.len() - a.len() + i]);
            assert(b[b.len() - a.len() + i] == c[c.len() - b.len() + (b.len() - a.len() + i)]);
        }
    }
}

/// A sequence is a suffix of itself.
pub proof fn lemma_suffix_refl(a: Seq<char>)
    ensures
        a.is_suffix_of(a),
{
    assert(a =~= a.subrange(0, a.len() as int));
}

/// A parser of string slices: reads a prefix of its input and hands back what
/// is left together with the value read.
pub trait Parser {
    type Dest: DeepView;

    /// What parsing `input` yields.
    spec fn spec_parse(&self, input: Seq<char>) -> SpecResult<<Self::Dest as DeepView>::V>;

    /// A parser only ever consumes a prefix of its input.
    proof fn lemma_parse_suffix(&self, input: Seq<char>)
        ensures
            leaves_suffix(input, self.spec_parse(input)),
    ;

    /// Parses `input`.
    fn parse<'a>(&self, input: &'a str) -> (res: Result<(&'a str, Self::Dest), ()>)
        ensures
            parsed_as(res, self.spec_parse(input@)),
    ;
}

/// A type with a parser of its own (a hand-written counterpart of a
/// deserialiser).
pub trait Parsable: Sized + DeepView {
    type Parser: Parser<Dest = Self>;

    /// The parser that `parser` builds.
    spec fn spec_parser() -> Self::Parser;

    /// Builds the parser of `Self`.
    fn parser() -> (p: Self::Parser)
        ensures
            p == Self::spec_parser(),
    ;
}

/// A conversion applied to the value of a parse (see `Map`).
pub trait Mapping<A: DeepView> {
    type Out: DeepView;

    /// The conversion, on models.
    spec fn spec_apply(&self, a: A::V) -> <Self::Out as DeepView>::V;

    /// Applies the conversion.
    fn apply(&self, a: A) -> (b: Self::Out)
        ensures
            b.deep_view() == self.spec_apply(a.deep_view()),
    ;
}

} // verus!
