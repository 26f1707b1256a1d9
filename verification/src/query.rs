//! Capture multiplicities, and what the checking pass reads from a compiled
//! query.
use vstd::prelude::*;

verus! {

/// How many values a capture binds in one match of a pattern.
#[derive(Clone, Copy, Debug, PartialEq, Eq, Structural)]
pub enum Cardinality {
    /// The capture does not occur in the pattern.
    Zero,
    ZeroOrOne,
    ZeroOrMore,
    ExactlyOne,
    OneOrMore,
}

impl Cardinality {
    /// A value of this cardinality can be iterated over.
    pub open spec fn spec_is_list(self) -> bool {
        self == Cardinality::ZeroOrMore || self == Cardinality::OneOrMore
    }

    /// A value of this cardinality can be tested for presence.
    pub open spec fn spec_is_optional(self) -> bool {
        self == Cardinality::ZeroOrOne
    }

    /// Whether a value of this cardinality can be iterated over: one that
    /// holds zero or more, or one or more, values.
    #[verifier::when_used_as_spec(spec_is_list)]
    pub fn is_list(self) -> (b: bool)
        ensures
            b == self.spec_is_list(),
    {
        match self {
            Cardinality::ZeroOrMore => true,
            Cardinality::OneOrMore => true,
            _ => false,
        }
    }

    /// Whether a value of this cardinality can be tested for presence: one
    /// that holds zero values or one.
    #[verifier::when_used_as_spec(spec_is_optional)]
    pub fn is_optional(self) -> (b: bool)
        ensures
            b == self.spec_is_optional(),
    {
        match self {
            Cardinality::ZeroOrOne => true,
            _ => false,
        }
    }
}

/// Trusted: `tree_sitter::Query`, a compiled query. Proofs see nothing inside
/// it; what the checking pass reads from it goes by the two names below.
#[verifier::external_type_specification]
#[verifier::external_body]
pub struct ExQuery(tree_sitter::Query);

/// The names of the captures of a compiled query, in the order of their
/// indices.
pub uninterp spec fn query_capture_names(query: tree_sitter::Query) -> Seq<Seq<char>>;

/// The multiplicity table of a compiled query: one row for each pattern, and
/// in each row one entry for each capture of the query.
pub uninterp spec fn query_capture_quantifiers(query: tree_sitter::Query) -> Seq<Seq<Cardinality>>;

/// `index` is the first position at which `name` occurs in `names`.
pub open spec fn is_first_index_of(names: Seq<Seq<char>>, name: Seq<char>, index: int) -> bool {
    &&& 0 <= index < names.len()
    &&& names[index] == name
    &&& forall|j: int| 0 <= j < index ==> names[j] != name
}

/// The first position at which `name` occurs in `names`.
pub open spec fn first_index_of(names: Seq<Seq<char>>, name: Seq<char>) -> int
    recommends
        names.contains(name),
{
    choose|index: int| is_first_index_of(names, name, index)
}

/// A name has at most one first position.
pub proof fn lemma_first_index_unique(names: Seq<Seq<char>>, name: Seq<char>, index: int)
    requires
        is_first_index_of(names, name, index),
    ensures
        first_index_of(names, name) == index,
        names.contains(name),
{
    let other = first_index_of(names, name);
    assert(is_first_index_of(names, name, other));
    if other < index {
        assert(names[other] != name);
    } else if index < other {
        assert(names[index] != name);
    }
}

/// Trusted: `tree_sitter::Query::capture_index_for_name`. The query keeps its
/// capture names in a vector and returns the first position that holds
/// `name`, or nothing when no position does. The constructor of a query gives
/// every row of the multiplicity table one entry for each capture name, so a
/// position that is returned is a column of every row.
#[verifier::external_body]
pub(crate) fn capture_index_for_name(query: &tree_sitter::Query, name: &str) -> (index: Option<u32>)
    ensures
        match index {
            Some(i) => {
                &&& is_first_index_of(query_capture_names(*query), name@, i as int)
                &&& forall|pattern: int|
                    0 <= pattern < query_capture_quantifiers(*query).len() ==> i
                        < (#[trigger] query_capture_quantifiers(*query)[pattern]).len()
            },
            None => !query_capture_names(*query).contains(name@),
        },
{
    query.capture_index_for_name(name)
}

/// Trusted: `tree_sitter::Query::capture_names`. The method returns the
/// vector of capture names that the query keeps; it is handed back as a copy.
#[verifier::external_body]
pub(crate) fn capture_names(query: &tree_sitter::Query) -> (names: Vec<String>)
    ensures
        names@.len() == query_capture_names(*query).len(),
        forall|i: int| 0 <= i < names@.len() ==> (#[trigger] names@[i])@ == query_capture_names(*query)[i],
{
    query.capture_names().to_vec()
}

/// Trusted: `tree_sitter::Query::pattern_count`. The constructor of a query
/// gives the multiplicity table one row for each pattern, and this is the
/// number of patterns.
#[verifier::external_body]
pub(crate) fn pattern_count(query: &tree_sitter::Query) -> (count: usize)
    ensures
        count == query_capture_quantifiers(*query).len(),
{
    query.pattern_count()
}

/// Trusted: `tree_sitter::Query::capture_quantifiers`, read at one column.
/// The method returns the row of the multiplicity table that belongs to
/// `pattern`; an index outside the table makes it panic, and so does a column
/// outside the row, so both are required to be inside. The entry is handed
/// back variant by variant.
#[verifier::external_body]
pub(crate) fn capture_quantifier(query: &tree_sitter::Query, pattern: usize, capture: usize) -> (quantifier:
    Cardinality)
    requires
        pattern < query_capture_quantifiers(*query).len(),
        capture < query_capture_quantifiers(*query)[pattern as int].len(),
    ensures
        quantifier == query_capture_quantifiers(*query)[pattern as int][capture as int],
{
    match query.capture_quantifiers(pattern)[capture] {
        tree_sitter::CaptureQuantifier::Zero => Cardinality::Zero,
        tree_sitter::CaptureQuantifier::ZeroOrOne => Cardinality::ZeroOrOne,
        tree_sitter::CaptureQuantifier::ZeroOrMore => Cardinality::ZeroOrMore,
        tree_sitter::CaptureQuantifier::One => Cardinality::ExactlyOne,
        tree_sitter::CaptureQuantifier::OneOrMore => Cardinality::OneOrMore,
    }
}

} // verus!
