//! The override source: caller-supplied artifacts, keyed by version, that
//! take precedence over the registry snapshot. Entries are claimed (removed)
//! as construction of the version map consumes them.

use vstd::prelude::*;

use crate::candidate::CandidateModel;
use crate::candidate::PrioritizedCandidate;
use crate::table::find_model;
use crate::table::has_version;
use crate::table::lemma_find_model_remove;
use crate::table::lemma_sorted_distinct_keys;
use crate::table::lemma_sorted_find_at;
use crate::table::sorted_models;
use crate::table::table_index;
use crate::table::table_insert;
use crate::table::table_models;
use crate::version::Version;
use crate::version::version_lt;

verus! {

/// A collection of locally known candidates for the package, keyed by
/// version, with take-once semantics: construction of the version map removes
/// each entry as it is consumed, so registry data can never re-add it.
#[derive(Debug)]
pub struct OverrideSource {
    entries: Vec<(Version, PrioritizedCandidate)>,
}

impl View for OverrideSource {
    type V = Seq<(Version, CandidateModel)>;

    closed spec fn view(&self) -> Seq<(Version, CandidateModel)> {
        table_models(self.entries@)
    }
}

impl OverrideSource {
    /// Sorted strictly by version: at most one candidate per version.
    pub open spec fn wf(self) -> bool {
        sorted_models(self@)
    }

    /// An override source with no entries.
    pub fn new() -> (r: OverrideSource)
        ensures
            r@ =~= Seq::<(Version, CandidateModel)>::empty(),
            r.wf(),
    {
        let r = OverrideSource { entries: Vec::new() };
        proof {
            assert(r@ =~= Seq::<(Version, CandidateModel)>::empty());
        }
        r
    }

    /// Records a candidate for a version not recorded yet.
    pub fn insert(&mut self, v: Version, c: PrioritizedCandidate)
        requires
            old(self).wf(),
            !has_version((*old(self))@, v),
        ensures
            final(self).wf(),
            find_model((*final(self))@, v) == Some(c@),
            forall|w: Version| w != v ==> #[trigger] find_model((*final(self))@, w) == find_model(
                (*old(self))@,
                w,
            ),
    {
        table_insert(&mut self.entries, v, c);
    }

    /// Takes the candidate recorded for a version, if any, removing it so it
    /// is used at most once.
    pub fn remove(&mut self, v: &Version) -> (r: Option<PrioritizedCandidate>)
        requires
            old(self).wf(),
        ensures
            final(self).wf(),
            match r {
                Some(c) => find_model((*old(self))@, *v) == Some(c@),
                None => find_model((*old(self))@, *v) is None,
            },
            find_model((*final(self))@, *v) is None,
            forall|w: Version| w != *v ==> #[trigger] find_model((*final(self))@, w) == find_model(
                (*old(self))@,
                w,
            ),
    {
        let ghost m0 = self@;
        match table_index(&self.entries, v) {
            Some(i) => {
                proof {
                    lemma_sorted_find_at(m0, i as int);
                    lemma_sorted_distinct_keys(m0);
                }
                let (_, c) = self.entries.remove(i);
                proof {
                    let m1 = self@;
                    assert(m1 =~= m0.remove(i as int));
                    lemma_find_model_remove(m0, i as int);
                    assert forall|a: int, b: int|
                        0 <= a < b < m1.len() implies version_lt(
                        #[trigger] m1[a].0,
                        #[trigger] m1[b].0,
                    ) by {
                        let a0 = if a < i {
                            a
                        } else {
                            a + 1
                        };
                        let b0 = if b < i {
                            b
                        } else {
                            b + 1
                        };
                        assert(m1[a] == m0[a0] && m1[b] == m0[b0]);
                    }
                }
                Some(c)
            },
            None => {
                proof {
                    crate::table::lemma_find_model_absent(m0, *v);
                }
                None
            },
        }
    }

    /// The inner table, for stating what adoption of the source preserves.
    pub closed spec fn spec_inner(self) -> Vec<(Version, PrioritizedCandidate)> {
        self.entries
    }

    /// The inner table carries exactly the model of the source.
    pub proof fn lemma_spec_inner(self)
        ensures
            table_models(self.spec_inner()@) == self@,
    {
    }

    /// Hands the remaining entries out, in version order.
    pub fn into_entries(self) -> (r: Vec<(Version, PrioritizedCandidate)>)
        ensures
            r == self.spec_inner(),
            table_models(r@) == self@,
    {
        self.entries
    }
}

} // verus!
