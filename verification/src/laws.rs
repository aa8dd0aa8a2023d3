//! The selection policy's guarantees, proved once and for all over the
//! specification functions that the construction and query contracts use.

use vstd::prelude::*;

use crate::candidate::BuiltCandidate;
use crate::candidate::CandidateModel;
use crate::candidate::empty_model;
use crate::candidate::model_insert_built;
use crate::candidate::model_resolve;
use crate::candidate::score_lt;
use crate::version::Version;
use crate::version_map::BinaryPolicy;
use crate::version_map::BuildContext;
use crate::version_map::FileRecord;
use crate::version_map::dropped_by_cutoff;
use crate::version_map::folded;
use crate::version_map::policy_excludes;
use crate::version_map::resolved_seq;
use crate::version_map::step;
use crate::version_map::wheel_score;

verus! {

/// Whether a candidate retains a compatibility-eligible binary: one that the
/// resolution rule would select.
pub open spec fn has_eligible_binary(m: CandidateModel) -> bool {
    m.built is Some && m.built->0.score is Some
}

/// The score a file offers to the binary slot: the wheel's granted score when
/// nothing drops the wheel, and no score otherwise (source files and excluded
/// or cut-off files never compete for the binary slot).
pub open spec fn offered_score(f: FileRecord, ctx: BuildContext) -> Option<u64> {
    if !dropped_by_cutoff(f, ctx) && f.kind is Wheel && !ctx.no_binary {
        wheel_score(f.kind->tag, f.requirement, ctx)
    } else {
        None
    }
}

/// A version all of whose files the reproducibility cutoff drops folds to the
/// empty candidate and resolves to nothing.
pub proof fn lemma_cutoff_filters_all(files: Seq<FileRecord>, ctx: BuildContext)
    requires
        forall|j: int| 0 <= j < files.len() ==> dropped_by_cutoff(#[trigger] files[j], ctx),
    ensures
        folded(empty_model(), files, ctx) == empty_model(),
        model_resolve(folded(empty_model(), files, ctx)) is None,
    decreases files.len(),
{
    if files.len() > 0 {
        assert forall|j: int|
            0 <= j < files.drop_last().len() implies dropped_by_cutoff(
            #[trigger] files.drop_last()[j],
            ctx,
        ) by {
            assert(files.drop_last()[j] == files[j]);
        }
        lemma_cutoff_filters_all(files.drop_last(), ctx);
    }
}

/// A version whose candidate resolves to nothing is skipped by iteration: no
/// yielded pair carries it, even though the version keeps its map entry.
pub proof fn lemma_iteration_skips_unresolvable(s: Seq<(Version, CandidateModel)>, v: Version)
    requires
        forall|k: int|
            0 <= k < s.len() && (#[trigger] s[k]).0 == v ==> model_resolve(s[k].1) is None,
    ensures
        forall|k: int| 0 <= k < resolved_seq(s).len() ==> (#[trigger] resolved_seq(s)[k]).0 != v,
    decreases s.len(),
{
    if s.len() > 0 {
        assert forall|k: int|
            0 <= k < s.drop_last().len() && (#[trigger] s.drop_last()[k]).0
                == v implies model_resolve(s.drop_last()[k].1) is None by {
            assert(s.drop_last()[k] == s[k]);
        }
        lemma_iteration_skips_unresolvable(s.drop_last(), v);
        if model_resolve(s.last().1) is Some {
            assert(s[s.len() - 1].0 == s.last().0);
        }
    }
}

/// A registry version whose files the cutoff drops entirely keeps its map
/// entry, yet resolves to nothing and appears in no yielded pair: the lookup
/// of `v` resolves to nothing and iteration skips it.
pub proof fn lemma_filtered_version_not_yielded(
    s: Seq<(Version, CandidateModel)>,
    v: Version,
    files: Seq<FileRecord>,
    ctx: BuildContext,
)
    requires
        crate::table::sorted_models(s),
        crate::table::find_model(s, v) == Some(folded(empty_model(), files, ctx)),
        forall|j: int| 0 <= j < files.len() ==> dropped_by_cutoff(#[trigger] files[j], ctx),
    ensures
        model_resolve(crate::table::find_model(s, v)->0) is None,
        forall|k: int| 0 <= k < resolved_seq(s).len() ==> (#[trigger] resolved_seq(s)[k]).0 != v,
{
    lemma_cutoff_filters_all(files, ctx);
    assert forall|k: int|
        0 <= k < s.len() && (#[trigger] s[k]).0 == v implies model_resolve(s[k].1) is None by {
        crate::table::lemma_sorted_find_at(s, k);
    }
    lemma_iteration_skips_unresolvable(s, v);
}

/// One step never evicts an eligible binary: once the binary slot holds a
/// scored candidate, it holds one forever after.
pub proof fn lemma_step_keeps_eligible(m: CandidateModel, f: FileRecord, ctx: BuildContext)
    requires
        has_eligible_binary(m),
    ensures
        has_eligible_binary(step(m, f, ctx)),
{
}

/// Folding the remaining files keeps an eligible binary eligible.
pub proof fn lemma_fold_keeps_eligible(
    init: CandidateModel,
    files: Seq<FileRecord>,
    ctx: BuildContext,
    from: int,
)
    requires
        0 <= from <= files.len(),
        has_eligible_binary(folded(init, files.take(from), ctx)),
    ensures
        has_eligible_binary(folded(init, files, ctx)),
    decreases files.len() - from,
{
    if from < files.len() {
        assert(files.take(from + 1).drop_last() =~= files.take(from));
        assert(files.take(from + 1).last() == files[from]);
        lemma_step_keeps_eligible(folded(init, files.take(from), ctx), files[from], ctx);
        lemma_fold_keeps_eligible(init, files, ctx, from + 1);
    } else {
        assert(files.take(from) =~= files);
    }
}

/// A version offered at least one compatible (scored) binary resolves to a
/// binary, whatever else — source files included — its file list holds.
pub proof fn lemma_compatible_binary_preferred(
    init: CandidateModel,
    files: Seq<FileRecord>,
    ctx: BuildContext,
    j: int,
)
    requires
        0 <= j < files.len(),
        offered_score(files[j], ctx) is Some,
    ensures
        has_eligible_binary(folded(init, files, ctx)),
        model_resolve(folded(init, files, ctx)) matches Some(d) && d is Built,
{
    assert(files.take(j + 1).drop_last() =~= files.take(j));
    assert(files.take(j + 1).last() == files[j]);
    let before = folded(init, files.take(j), ctx);
    assert(folded(init, files.take(j + 1), ctx) == step(before, files[j], ctx));
    assert(has_eligible_binary(step(before, files[j], ctx)));
    lemma_fold_keeps_eligible(init, files, ctx, j + 1);
}

/// One step never grants the binary slot a score when the file offers none.
pub proof fn lemma_step_no_score(m: CandidateModel, f: FileRecord, ctx: BuildContext)
    requires
        !has_eligible_binary(m),
        offered_score(f, ctx) is None,
    ensures
        !has_eligible_binary(step(m, f, ctx)),
{
}

/// Folding files none of which offers a score never makes the binary slot
/// eligible.
pub proof fn lemma_fold_no_score(init: CandidateModel, files: Seq<FileRecord>, ctx: BuildContext)
    requires
        !has_eligible_binary(init),
        forall|l: int| 0 <= l < files.len() ==> offered_score(#[trigger] files[l], ctx) is None,
    ensures
        !has_eligible_binary(folded(init, files, ctx)),
    decreases files.len(),
{
    if files.len() > 0 {
        assert forall|l: int|
            0 <= l < files.drop_last().len() implies offered_score(
            #[trigger] files.drop_last()[l],
            ctx,
        ) is None by {
            assert(files.drop_last()[l] == files[l]);
        }
        lemma_fold_no_score(init, files.drop_last(), ctx);
        lemma_step_no_score(folded(init, files.drop_last(), ctx), files.last(), ctx);
    }
}

/// A recorded source candidate survives every later step.
pub proof fn lemma_fold_keeps_source(
    init: CandidateModel,
    files: Seq<FileRecord>,
    ctx: BuildContext,
    from: int,
)
    requires
        0 <= from <= files.len(),
        folded(init, files.take(from), ctx).source is Some,
    ensures
        folded(init, files, ctx).source is Some,
    decreases files.len() - from,
{
    if from < files.len() {
        assert(files.take(from + 1).drop_last() =~= files.take(from));
        assert(files.take(from + 1).last() == files[from]);
        lemma_fold_keeps_source(init, files, ctx, from + 1);
    } else {
        assert(files.take(from) =~= files);
    }
}

/// A version with only incompatible binaries (none offers a score) and a
/// surviving source file resolves to the source.
pub proof fn lemma_source_fallback(files: Seq<FileRecord>, ctx: BuildContext, j: int)
    requires
        forall|l: int| 0 <= l < files.len() ==> offered_score(#[trigger] files[l], ctx) is None,
        0 <= j < files.len(),
        files[j].kind is Sdist,
        !dropped_by_cutoff(files[j], ctx),
    ensures
        model_resolve(folded(empty_model(), files, ctx)) matches Some(d) && d is Source,
{
    lemma_fold_no_score(empty_model(), files, ctx);
    assert(files.take(j + 1).drop_last() =~= files.take(j));
    assert(files.take(j + 1).last() == files[j]);
    assert(folded(empty_model(), files.take(j + 1), ctx).source is Some);
    lemma_fold_keeps_source(empty_model(), files, ctx, j + 1);
}

/// Of two compatible binaries with strictly ordered scores, the higher-scored
/// one is selected whichever order they are recorded in.
pub proof fn lemma_highest_score_wins(
    m0: CandidateModel,
    a: BuiltCandidate,
    da: Seq<u64>,
    b: BuiltCandidate,
    db: Seq<u64>,
)
    requires
        m0.built is None,
        a.score is Some,
        b.score is Some,
        a.score->0 > b.score->0,
    ensures
        model_insert_built(model_insert_built(m0, a, da), b, db).built == Some(a),
        model_insert_built(model_insert_built(m0, b, db), a, da).built == Some(a),
{
}

/// An override candidate recorded before the registry is scanned is never
/// displaced by a registry file of lower or equal score: first-seen wins on
/// ties.
pub proof fn lemma_override_never_displaced(
    init: CandidateModel,
    files: Seq<FileRecord>,
    ctx: BuildContext,
)
    requires
        init.built is Some,
        forall|l: int|
            0 <= l < files.len() ==> !score_lt(
                init.built->0.score,
                offered_score(#[trigger] files[l], ctx),
            ),
    ensures
        folded(init, files, ctx).built == init.built,
    decreases files.len(),
{
    if files.len() > 0 {
        assert forall|l: int|
            0 <= l < files.drop_last().len() implies !score_lt(
            init.built->0.score,
            offered_score(#[trigger] files.drop_last()[l], ctx),
        ) by {
            assert(files.drop_last()[l] == files[l]);
        }
        lemma_override_never_displaced(init, files.drop_last(), ctx);
    }
}

/// The digests a file list contributes: those of every file that survives the
/// cutoff and, for binaries, the binary policy — whether or not the file's
/// candidate wins selection.
pub open spec fn contributed_digests(files: Seq<FileRecord>, ctx: BuildContext) -> Seq<u64>
    decreases files.len(),
{
    if files.len() == 0 {
        Seq::empty()
    } else {
        contributed_digests(files.drop_last(), ctx) + (if dropped_by_cutoff(files.last(), ctx) || (
        files.last().kind is Wheel && ctx.no_binary) {
            Seq::empty()
        } else {
            files.last().digests@
        })
    }
}

/// The accumulated digest set is the union (concatenation) of the digests of
/// every contributing file, on top of what the override candidate brought —
/// independent of which candidate won selection.
pub proof fn lemma_hashes_union(init: CandidateModel, files: Seq<FileRecord>, ctx: BuildContext)
    ensures
        folded(init, files, ctx).digests == init.digests + contributed_digests(files, ctx),
    decreases files.len(),
{
    if files.len() == 0 {
        assert(init.digests + contributed_digests(files, ctx) =~= init.digests);
    } else {
        lemma_hashes_union(init, files.drop_last(), ctx);
        let prev = contributed_digests(files.drop_last(), ctx);
        let own = if dropped_by_cutoff(files.last(), ctx) || (files.last().kind is Wheel
            && ctx.no_binary) {
            Seq::<u64>::empty()
        } else {
            files.last().digests@
        };
        assert((init.digests + prev) + own =~= init.digests + (prev + own));
        if dropped_by_cutoff(files.last(), ctx) || (files.last().kind is Wheel && ctx.no_binary) {
            assert((init.digests + prev) + own =~= init.digests + prev);
        }
    }
}

/// Under an exclude-all binary policy, a version whose surviving files are
/// all binaries folds to the empty candidate and resolves to nothing, even
/// though the raw files existed.
pub proof fn lemma_no_binary_excludes(files: Seq<FileRecord>, ctx: BuildContext)
    requires
        ctx.no_binary,
        forall|l: int|
            0 <= l < files.len() ==> ((#[trigger] files[l]).kind is Wheel || dropped_by_cutoff(
                files[l],
                ctx,
            )),
    ensures
        folded(empty_model(), files, ctx) == empty_model(),
        model_resolve(folded(empty_model(), files, ctx)) is None,
    decreases files.len(),
{
    if files.len() > 0 {
        assert forall|l: int|
            0 <= l < files.drop_last().len() implies ((#[trigger] files.drop_last()[l]).kind
                is Wheel || dropped_by_cutoff(files.drop_last()[l], ctx)) by {
            assert(files.drop_last()[l] == files[l]);
        }
        lemma_no_binary_excludes(files.drop_last(), ctx);
    }
}

/// The exclude-named-subset policy forbids binaries for exactly the named
/// packages: for a package in the subset it acts as exclude-all, for any
/// other package as exclude-none. The construction context depends on the
/// policy only through [`policy_excludes`], so the built maps coincide.
pub proof fn lemma_named_subset_policy(packages: Vec<u64>, package: u64)
    ensures
        policy_excludes(BinaryPolicy::ExcludePackages(packages), package) == packages@.contains(
            package,
        ),
        packages@.contains(package) ==> policy_excludes(
            BinaryPolicy::ExcludePackages(packages),
            package,
        ) == policy_excludes(BinaryPolicy::ExcludeAll, package),
        !packages@.contains(package) ==> policy_excludes(
            BinaryPolicy::ExcludePackages(packages),
            package,
        ) == policy_excludes(BinaryPolicy::AllowAll, package),
{
}

} // verus!
