//! Per-version candidate aggregation: which single binary and which single
//! source artifact survive among all files offered for one version, and which
//! of the two wins.

use vstd::prelude::*;

use crate::version::Version;

verus! {

/// A publisher-issued retraction marker on a published file: either a plain
/// flag or a reason (carried as an interned identifier). The marker is
/// surfaced to the resolver with the winning candidate; it never disqualifies
/// a candidate at this layer.
#[derive(Clone, Copy, Debug, PartialEq, Eq)]
pub enum Yanked {
    Flag(bool),
    Reason(u64),
}

/// The marker used for files that carry none: not yanked.
pub open spec fn spec_default_yanked() -> Yanked {
    Yanked::Flag(false)
}

/// An identifier for a retrievable artifact: the published file (by its
/// interned filename) together with the index it came from.
#[derive(Clone, Copy, Debug, PartialEq, Eq)]
pub struct Dist {
    pub filename: u64,
    pub index: u64,
}

/// A declared interpreter/runtime requirement: an inclusive range of runtime
/// versions the artifact supports. Absence of a requirement on a file means
/// unconditionally satisfied.
#[derive(Clone, Copy, Debug, PartialEq, Eq)]
pub struct RuntimeRequirement {
    pub min: Version,
    pub max: Version,
}

/// Whether the runtime target satisfies a declared requirement.
pub open spec fn requirement_contains(r: RuntimeRequirement, target: Version) -> bool {
    !crate::version::version_lt(target, r.min) && !crate::version::version_lt(r.max, target)
}

/// Decides [`requirement_contains`].
pub fn requirement_contains_exec(r: &RuntimeRequirement, target: &Version) -> (b: bool)
    ensures
        b == requirement_contains(*r, *target),
{
    !crate::version::version_lt_exec(target, &r.min) && !crate::version::version_lt_exec(
        &r.max,
        target,
    )
}

/// A retained binary candidate: the distribution reference, the declared
/// runtime requirement, the yank marker, and the compatibility score. A
/// candidate without a score is compatibility-ineligible: it is retained (its
/// digests count) but never selected as the winner.
#[derive(Clone, Copy, Debug, PartialEq, Eq)]
pub struct BuiltCandidate {
    pub dist: Dist,
    pub requirement: Option<RuntimeRequirement>,
    pub yanked: Yanked,
    pub score: Option<u64>,
}

/// A retained source candidate.
#[derive(Clone, Copy, Debug, PartialEq, Eq)]
pub struct SourceCandidate {
    pub dist: Dist,
    pub requirement: Option<RuntimeRequirement>,
    pub yanked: Yanked,
}

/// The candidate a version resolves to: a compatibility-eligible binary, or
/// the source archive as a fallback. The yank marker of the winner is
/// surfaced; acting on it is the resolver's policy.
#[derive(Clone, Copy, Debug, PartialEq, Eq)]
pub enum ResolvableDist {
    Built { dist: Dist, score: u64, yanked: Yanked },
    Source { dist: Dist, yanked: Yanked },
}

/// The mathematical model of a [`PrioritizedCandidate`].
pub struct CandidateModel {
    pub built: Option<BuiltCandidate>,
    pub source: Option<SourceCandidate>,
    pub digests: Seq<u64>,
}

/// A candidate with no files recorded yet.
pub open spec fn empty_model() -> CandidateModel {
    CandidateModel { built: None, source: None, digests: Seq::empty() }
}

/// The strict order on compatibility scores: an absent score ranks below every
/// present one.
pub open spec fn score_lt(a: Option<u64>, b: Option<u64>) -> bool {
    match b {
        Some(y) => match a {
            Some(x) => x < y,
            None => true,
        },
        None => false,
    }
}

/// What recording a binary candidate does to the model: the digests are always
/// accumulated; the retained binary is replaced only by a strictly
/// higher-scored newcomer (first-seen-wins on ties, which keeps an earlier
/// override insertion dominant).
pub open spec fn model_insert_built(
    m: CandidateModel,
    d: BuiltCandidate,
    digests: Seq<u64>,
) -> CandidateModel {
    CandidateModel {
        built: match m.built {
            Some(b) => if score_lt(b.score, d.score) {
                Some(d)
            } else {
                Some(b)
            },
            None => Some(d),
        },
        source: m.source,
        digests: m.digests + digests,
    }
}

/// What recording a source candidate does to the model: the digests are
/// accumulated and the newcomer replaces any earlier source candidate
/// (latest-wins; a well-formed catalog offers at most one source per version).
pub open spec fn model_insert_source(
    m: CandidateModel,
    s: SourceCandidate,
    digests: Seq<u64>,
) -> CandidateModel {
    CandidateModel { built: m.built, source: Some(s), digests: m.digests + digests }
}

/// The resolution rule: prefer the retained binary if it is
/// compatibility-eligible (it has a score); otherwise fall back to the
/// retained source; otherwise nothing.
pub open spec fn model_resolve(m: CandidateModel) -> Option<ResolvableDist> {
    match m.built {
        Some(b) => match b.score {
            Some(s) => Some(ResolvableDist::Built { dist: b.dist, score: s, yanked: b.yanked }),
            None => resolve_source(m.source),
        },
        None => resolve_source(m.source),
    }
}

/// The source half of the resolution rule.
pub open spec fn resolve_source(s: Option<SourceCandidate>) -> Option<ResolvableDist> {
    match s {
        Some(sc) => Some(ResolvableDist::Source { dist: sc.dist, yanked: sc.yanked }),
        None => None,
    }
}

/// The per-version aggregator. Files are fed in one at a time; it retains at
/// most one binary candidate (the highest-scored one seen) and at most one
/// source candidate (the latest seen), and accumulates the integrity digests
/// of every file fed to it, whichever candidate wins.
#[derive(Debug)]
pub struct PrioritizedCandidate {
    built: Option<BuiltCandidate>,
    source: Option<SourceCandidate>,
    digests: Vec<u64>,
}

impl View for PrioritizedCandidate {
    type V = CandidateModel;

    closed spec fn view(&self) -> CandidateModel {
        CandidateModel { built: self.built, source: self.source, digests: self.digests@ }
    }
}

impl PrioritizedCandidate {
    /// A candidate with no files recorded.
    pub fn new() -> (r: PrioritizedCandidate)
        ensures
            r@ == empty_model(),
    {
        let r = PrioritizedCandidate { built: None, source: None, digests: Vec::new() };
        proof {
            assert(r@.digests =~= empty_model().digests);
        }
        r
    }

    /// Records a binary candidate: digests are always accumulated; the
    /// retained binary changes only if the newcomer's score is strictly
    /// higher.
    pub fn insert_built(
        &mut self,
        dist: Dist,
        requirement: Option<RuntimeRequirement>,
        yanked: Yanked,
        digests: &Vec<u64>,
        score: Option<u64>,
    )
        ensures
            (*final(self))@ == model_insert_built(
                (*old(self))@,
                BuiltCandidate { dist, requirement, yanked, score },
                digests@,
            ),
    {
        let newcomer = BuiltCandidate { dist, requirement, yanked, score };
        let replace = match self.built {
            Some(b) => score_lt_exec(b.score, score),
            None => true,
        };
        if replace {
            self.built = Some(newcomer);
        }
        append_digests(&mut self.digests, digests);
    }

    /// Records a source candidate: digests are accumulated and the newcomer
    /// replaces any earlier source candidate.
    pub fn insert_source(
        &mut self,
        dist: Dist,
        requirement: Option<RuntimeRequirement>,
        yanked: Yanked,
        digests: &Vec<u64>,
    )
        ensures
            (*final(self))@ == model_insert_source(
                (*old(self))@,
                SourceCandidate { dist, requirement, yanked },
                digests@,
            ),
    {
        self.source = Some(SourceCandidate { dist, requirement, yanked });
        append_digests(&mut self.digests, digests);
    }

    /// The winning candidate under the resolution rule, if any.
    pub fn get(&self) -> (r: Option<ResolvableDist>)
        ensures
            r == model_resolve(self@),
    {
        match self.built {
            Some(b) => match b.score {
                Some(s) => Some(
                    ResolvableDist::Built { dist: b.dist, score: s, yanked: b.yanked },
                ),
                None => self.get_source(),
            },
            None => self.get_source(),
        }
    }

    fn get_source(&self) -> (r: Option<ResolvableDist>)
        ensures
            r == resolve_source(self@.source),
    {
        match self.source {
            Some(sc) => Some(ResolvableDist::Source { dist: sc.dist, yanked: sc.yanked }),
            None => None,
        }
    }

    /// The union of the digests of every file recorded for this version,
    /// regardless of which candidate won selection.
    pub fn hashes(&self) -> (r: Vec<u64>)
        ensures
            r@ == self@.digests,
    {
        copy_digests(&self.digests)
    }
}

/// Decides [`score_lt`].
fn score_lt_exec(a: Option<u64>, b: Option<u64>) -> (r: bool)
    ensures
        r == score_lt(a, b),
{
    match b {
        Some(y) => match a {
            Some(x) => x < y,
            None => true,
        },
        None => false,
    }
}

/// Appends every digest of `src` to `dst`.
fn append_digests(dst: &mut Vec<u64>, src: &Vec<u64>)
    ensures
        (*final(dst))@ == (*old(dst))@ + src@,
{
    let mut i: usize = 0;
    while i < src.len()
        invariant
            i <= src.len(),
            dst@ == old(dst)@ + src@.take(i as int),
        decreases src.len() - i,
    {
        dst.push(src[i]);
        proof {
            assert(old(dst)@ + src@.take(i + 1 as int) =~= (old(dst)@ + src@.take(i as int)).push(
                src@[i as int],
            ));
        }
        i = i + 1;
    }
    proof {
        assert(src@.take(src@.len() as int) =~= src@);
    }
}

/// Copies a digest list.
fn copy_digests(src: &Vec<u64>) -> (r: Vec<u64>)
    ensures
        r@ == src@,
{
    let mut r: Vec<u64> = Vec::new();
    append_digests(&mut r, src);
    proof {
        assert(Seq::<u64>::empty() + src@ =~= src@);
    }
    r
}

} // verus!
