//! Checking stanzas and whole files.
use crate::ast::{File, Stanza};
use crate::checker::{CaptureTable, CheckContext, CheckError, CheckErrorView, ExpressionResult};
use crate::context::Context;
use crate::expressions::unit_result;
use crate::query::{
    capture_index_for_name, first_index_of, lemma_first_index_unique, query_capture_names,
    query_capture_quantifiers,
};
use crate::statements::{block_checked, block_interned, block_outcome, check_statements};
use crate::variables::VariableMap;
use vstd::prelude::*;

verus! {

/// The name of the capture that stands for the whole match of a stanza's
/// pattern.
pub const FULL_MATCH: &'static str = "__tsg__full_match";

impl Stanza {
    /// The facts under which the body of this stanza is checked when it is
    /// the stanza at position `index` of a file with the query `file_query`.
    pub open spec fn table(self, names: Seq<Seq<char>>, file_query: tree_sitter::Query, index: int) -> CaptureTable {
        CaptureTable {
            names,
            stanza_captures: query_capture_names(self.query),
            file_captures: query_capture_names(file_query),
            quantifiers: query_capture_quantifiers(file_query)[index],
        }
    }

    /// Every name in the body is one of the first `count` interned names.
    pub open spec fn interned(self, count: nat) -> bool {
        block_interned(self.statements@, count)
    }

    /// The first error in the body, which is checked from its first
    /// statement on in an environment of one empty scope.
    pub open spec fn failure(self, t: CaptureTable) -> Option<CheckErrorView> {
        match block_outcome(self.statements@, self.statements@.len() as int, seq![Map::empty()], t) {
            Err(error) => Some(error),
            Ok(_) => None,
        }
    }

    /// `new` is this stanza after it was checked: the index of the capture
    /// for the whole match is filled in, the captures that the check reached
    /// are resolved, and nothing else differs.
    pub open spec fn checked(self, new: Stanza, t: CaptureTable) -> bool {
        &&& new.query == self.query
        &&& new.location == self.location
        &&& new.full_match_stanza_capture_index == self.full_match_stanza_capture_index
        &&& new.full_match_file_capture_index == first_index_of(t.file_captures, FULL_MATCH@) as usize
        &&& block_checked(self.statements@, new.statements@, seq![Map::empty()], t)
    }

    /// Checks the body of the stanza in a fresh environment.
    pub(crate) fn check(&mut self, ctx: &Context, file_query: &tree_sitter::Query, stanza_index: usize) -> (result:
        Result<(), CheckError>)
        requires
            stanza_index < query_capture_quantifiers(*file_query).len(),
            query_capture_names(*file_query).contains(FULL_MATCH@),
            old(self).table(ctx@, *file_query, stanza_index as int).wf(),
            old(self).interned(ctx@.len()),
        ensures
            unit_result(result, old(self).failure(old(self).table(ctx@, *file_query, stanza_index as int))),
            old(self).checked(*final(self), old(self).table(ctx@, *file_query, stanza_index as int)),
    {
        let mut locals: VariableMap<ExpressionResult> = VariableMap::new();
        let full_match = capture_index_for_name(file_query, FULL_MATCH);
        assert(full_match is Some);
        proof {
            lemma_first_index_unique(
                query_capture_names(*file_query),
                FULL_MATCH@,
                full_match->Some_0 as int,
            );
        }
        self.full_match_file_capture_index = full_match.unwrap() as usize;
        let cx = CheckContext { ctx, file_query, stanza_index, stanza_query: &self.query };
        assert(cx@ == old(self).table(ctx@, *file_query, stanza_index as int));
        check_statements(&mut self.statements, &cx, &mut locals)
    }
}

/// The error of the first stanza that fails, among the first `upto`.
pub open spec fn stanzas_failure(
    stanzas: Seq<Stanza>,
    upto: int,
    names: Seq<Seq<char>>,
    file_query: tree_sitter::Query,
) -> Option<CheckErrorView>
    decreases upto,
{
    if 0 < upto <= stanzas.len() {
        match stanzas_failure(stanzas, upto - 1, names, file_query) {
            Some(error) => Some(error),
            None => stanzas[upto - 1].failure(stanzas[upto - 1].table(names, file_query, upto - 1)),
        }
    } else {
        None
    }
}

/// `news` is `olds` after the stanzas were checked in order: up to the first
/// that fails, each is as its check leaves it; those after it were not
/// touched.
pub open spec fn stanzas_checked(
    olds: Seq<Stanza>,
    news: Seq<Stanza>,
    names: Seq<Seq<char>>,
    file_query: tree_sitter::Query,
) -> bool {
    &&& olds.len() == news.len()
    &&& forall|i: int|
        #![trigger news[i]]
        0 <= i < olds.len() ==> if stanzas_failure(olds, i, names, file_query) is None {
            olds[i].checked(news[i], olds[i].table(names, file_query, i))
        } else {
            news[i] == olds[i]
        }
}

/// A failure among the first stanzas is the failure of every longer run.
pub proof fn lemma_stanzas_failure_persists(
    stanzas: Seq<Stanza>,
    upto: int,
    later: int,
    names: Seq<Seq<char>>,
    file_query: tree_sitter::Query,
)
    requires
        0 <= upto <= later <= stanzas.len(),
        stanzas_failure(stanzas, upto, names, file_query) is Some,
    ensures
        stanzas_failure(stanzas, later, names, file_query) == stanzas_failure(
            stanzas,
            upto,
            names,
            file_query,
        ),
    decreases later - upto,
{
    if upto < later {
        lemma_stanzas_failure_persists(stanzas, upto, later - 1, names, file_query);
    }
}

impl File {
    /// What a file has to satisfy to be checked: its query is compiled; if
    /// the file has a stanza, the query binds the capture for the whole
    /// match; the query has a pattern for each stanza and binds every
    /// capture that the query of a stanza binds; and every name in the file
    /// is interned in `names`.
    pub open spec fn checkable(self, names: Seq<Seq<char>>) -> bool {
        &&& self.query is Some
        &&& self.stanzas.len() > 0 ==> query_capture_names(self.query->Some_0).contains(FULL_MATCH@)
        &&& self.stanzas.len() <= query_capture_quantifiers(self.query->Some_0).len()
        &&& forall|i: int|
            #![trigger self.stanzas[i]]
            0 <= i < self.stanzas.len() ==> {
                &&& self.stanzas[i].table(names, self.query->Some_0, i).wf()
                &&& self.stanzas[i].interned(names.len())
            }
    }

    /// The first error in the file: stanzas are checked in order, each on
    /// its own.
    pub open spec fn failure(self, names: Seq<Seq<char>>) -> Option<CheckErrorView> {
        stanzas_failure(self.stanzas@, self.stanzas@.len() as int, names, self.query->Some_0)
    }

    /// `new` is this file after it was checked: the captures that the check
    /// reached are resolved, and nothing else differs.
    pub open spec fn checked(self, new: File, names: Seq<Seq<char>>) -> bool {
        &&& new.query == self.query
        &&& stanzas_checked(self.stanzas@, new.stanzas@, names, self.query->Some_0)
    }

    /// Checks every stanza of the file and records on each capture where the
    /// queries bind it. Stops at the first error.
    pub fn check(&mut self, ctx: &Context) -> (result: Result<(), CheckError>)
        requires
            old(self).checkable(ctx@),
        ensures
            unit_result(result, old(self).failure(ctx@)),
            old(self).checked(*final(self), ctx@),
            old(self).stanzas@.len() == 0 ==> *final(self) == *old(self),
    {
        let file_query = self.query.as_ref().unwrap();
        let ghost olds = self.stanzas@;
        let mut index: usize = 0;
        while index < self.stanzas.len()
            invariant
                index <= self.stanzas.len() == olds.len(),
                olds == old(self).stanzas@,
                old(self).checkable(ctx@),
                self.query == old(self).query,
                index == 0 ==> *self == *old(self),
                *file_query == self.query->Some_0,
                stanzas_failure(olds, index as int, ctx@, *file_query) is None,
                forall|j: int|
                    #![trigger self.stanzas@[j]]
                    0 <= j < index ==> if stanzas_failure(olds, j, ctx@, *file_query) is None {
                        olds[j].checked(self.stanzas@[j], olds[j].table(ctx@, *file_query, j))
                    } else {
                        self.stanzas@[j] == olds[j]
                    },
                forall|j: int|
                    #![trigger self.stanzas@[j]]
                    index <= j < self.stanzas.len() ==> self.stanzas@[j] == olds[j],
            decreases self.stanzas.len() - index,
        {
            assert(old(self).stanzas[index as int].interned(ctx@.len()));
            let ghost before = self.stanzas@;
            let checked = self.stanzas[index].check(ctx, file_query, index);
            assert forall|j: int|
                #![trigger self.stanzas@[j]]
                0 <= j < self.stanzas.len() && j != index implies self.stanzas@[j] == before[j] by {}
            if let Err(error) = checked {
                proof {
                    lemma_stanzas_failure_persists(olds, index + 1, olds.len() as int, ctx@, *file_query);
                    assert forall|j: int| #![trigger self.stanzas@[j]] index < j < olds.len() implies stanzas_failure(
                        olds,
                        j,
                        ctx@,
                        *file_query,
                    ) is Some by {
                        lemma_stanzas_failure_persists(olds, index + 1, j, ctx@, *file_query);
                    }
                }
                return Err(error);
            }
            index = index + 1;
        }
        Ok(())
    }
}

} // verus!
