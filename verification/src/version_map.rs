//! The version map: an ordered mapping from version to prioritized candidate,
//! built once per package from a registry snapshot plus an optional override
//! source, then queried by the resolver.

use vstd::prelude::*;

use crate::candidate::BuiltCandidate;
use crate::candidate::CandidateModel;
use crate::candidate::Dist;
use crate::candidate::PrioritizedCandidate;
use crate::candidate::ResolvableDist;
use crate::candidate::RuntimeRequirement;
use crate::candidate::SourceCandidate;
use crate::candidate::Yanked;
use crate::candidate::empty_model;
use crate::candidate::model_insert_built;
use crate::candidate::model_insert_source;
use crate::candidate::model_resolve;
use crate::candidate::requirement_contains;
use crate::candidate::spec_default_yanked;
use crate::overrides::OverrideSource;
use crate::table::find_model;
use crate::table::has_version;
use crate::table::sorted_models;
use crate::table::table_models;
use crate::version::Version;
use crate::version::version_lt;

verus! {

/// The active platform tag set, as scored by the compatibility oracle: each
/// supported tag with the priority a binary carrying it receives. A binary
/// whose tag is absent is incompatible.
#[derive(Debug)]
pub struct Tags {
    pub priorities: Vec<(u64, u64)>,
}

/// The score the compatibility oracle gives a binary with the given tag: the
/// priority of the first matching entry, or nothing when the tag set has no
/// entry for it.
pub open spec fn compatibility(tags: Seq<(u64, u64)>, tag: u64) -> Option<u64>
    decreases tags.len(),
{
    if tags.len() == 0 {
        None
    } else if tags[0].0 == tag {
        Some(tags[0].1)
    } else {
        compatibility(tags.drop_first(), tag)
    }
}

/// The binary-exclusion policy: allow binaries everywhere, exclude them for
/// every package, or exclude them for a named subset of packages.
#[derive(Debug)]
pub enum BinaryPolicy {
    AllowAll,
    ExcludeAll,
    ExcludePackages(Vec<u64>),
}

/// Whether the policy forbids binaries for the given package.
pub open spec fn policy_excludes(p: BinaryPolicy, package: u64) -> bool {
    match p {
        BinaryPolicy::AllowAll => false,
        BinaryPolicy::ExcludeAll => true,
        BinaryPolicy::ExcludePackages(packages) => packages@.contains(package),
    }
}

/// The kind of a published file: a prebuilt binary carrying its platform tag,
/// or a source archive (never tag-filtered and never hit by the binary
/// policy).
#[derive(Clone, Copy, Debug, PartialEq, Eq)]
pub enum FileKind {
    Wheel { tag: u64 },
    Sdist,
}

/// One published file of one version, as the registry reports it: interned
/// filename, kind, optional upload timestamp in milliseconds, optional yank
/// marker, optional runtime requirement, and its integrity digest set.
#[derive(Debug)]
pub struct FileRecord {
    pub name: u64,
    pub kind: FileKind,
    pub upload_ms: Option<i64>,
    pub yanked: Option<Yanked>,
    pub requirement: Option<RuntimeRequirement>,
    pub digests: Vec<u64>,
}

/// One (version, files) entry of the registry snapshot.
#[derive(Debug)]
pub struct SnapshotEntry {
    pub version: Version,
    pub files: Vec<FileRecord>,
}

/// The fixed resolution context a version map is built under.
pub struct BuildContext {
    pub index: u64,
    pub tags: Seq<(u64, u64)>,
    pub target: Version,
    pub exclude_newer: Option<i64>,
    pub no_binary: bool,
}

/// Whether a reproducibility cutoff drops the file: it does when a cutoff is
/// set and the file's upload time is at or past it, and also when a cutoff is
/// set and the upload time is unknown (unknown-timestamp files are unsafe to
/// include under a cutoff, and emit a warning).
pub open spec fn dropped_by_cutoff(f: FileRecord, ctx: BuildContext) -> bool {
    match ctx.exclude_newer {
        Some(cut) => match f.upload_ms {
            Some(t) => t >= cut,
            None => true,
        },
        None => false,
    }
}

/// The yank marker of a file: its own, or "not yanked".
pub open spec fn yank_of(y: Option<Yanked>) -> Yanked {
    match y {
        Some(v) => v,
        None => spec_default_yanked(),
    }
}

/// Whether the runtime target satisfies a file's declared requirement;
/// absence of a requirement means unconditionally satisfied.
pub open spec fn requirement_ok(r: Option<RuntimeRequirement>, target: Version) -> bool {
    match r {
        Some(rr) => requirement_contains(rr, target),
        None => true,
    }
}

/// The score granted to a binary file: the oracle's score for its tag, but
/// only if its runtime requirement is satisfied.
pub open spec fn wheel_score(tag: u64, r: Option<RuntimeRequirement>, ctx: BuildContext) -> Option<
    u64,
> {
    if requirement_ok(r, ctx.target) {
        compatibility(ctx.tags, tag)
    } else {
        None
    }
}

/// What one file does to a version's candidate: nothing if the cutoff drops
/// it; a binary is dropped under the no-binary policy and otherwise recorded
/// with its (possibly absent) score; a source file is always recorded.
pub open spec fn step(m: CandidateModel, f: FileRecord, ctx: BuildContext) -> CandidateModel {
    if dropped_by_cutoff(f, ctx) {
        m
    } else {
        match f.kind {
            FileKind::Wheel { tag } => if ctx.no_binary {
                m
            } else {
                model_insert_built(
                    m,
                    BuiltCandidate {
                        dist: Dist { filename: f.name, index: ctx.index },
                        requirement: f.requirement,
                        yanked: yank_of(f.yanked),
                        score: wheel_score(tag, f.requirement, ctx),
                    },
                    f.digests@,
                )
            },
            FileKind::Sdist => model_insert_source(
                m,
                SourceCandidate {
                    dist: Dist { filename: f.name, index: ctx.index },
                    requirement: f.requirement,
                    yanked: yank_of(f.yanked),
                },
                f.digests@,
            ),
        }
    }
}

/// The candidate a version's file list folds to, starting from the candidate
/// the override source already recorded for it (or from nothing).
pub open spec fn folded(init: CandidateModel, files: Seq<FileRecord>, ctx: BuildContext)
    -> CandidateModel
    decreases files.len(),
{
    if files.len() == 0 {
        init
    } else {
        step(folded(init, files.drop_last(), ctx), files.last(), ctx)
    }
}

/// The starting candidate for a version: what the override source recorded,
/// or an empty candidate.
pub open spec fn init_for(ovr: Seq<(Version, CandidateModel)>, v: Version) -> CandidateModel {
    match find_model(ovr, v) {
        Some(m) => m,
        None => empty_model(),
    }
}

/// The model of an optional override source; absent means empty.
pub open spec fn opt_models(o: Option<OverrideSource>) -> Seq<(Version, CandidateModel)> {
    match o {
        Some(s) => s@,
        None => Seq::empty(),
    }
}

/// The snapshot's entries are strictly ordered by version.
pub open spec fn entries_sorted(entries: Seq<SnapshotEntry>) -> bool {
    forall|i: int, j: int|
        0 <= i < j < entries.len() ==> version_lt(
            (#[trigger] entries[i]).version,
            (#[trigger] entries[j]).version,
        )
}

/// Whether one of the first `i` snapshot entries carries the version.
pub open spec fn prefix_has_version(entries: Seq<SnapshotEntry>, i: int, v: Version) -> bool {
    exists|k: int| 0 <= k < i && (#[trigger] entries[k]).version == v
}

/// Whether any snapshot entry carries the version.
pub open spec fn snapshot_has_version(entries: Seq<SnapshotEntry>, v: Version) -> bool {
    prefix_has_version(entries, entries.len() as int, v)
}

/// Whether one of the first `j` files of the entry is missing its upload
/// timestamp and has the given name.
pub open spec fn missing_in_files(files: Seq<FileRecord>, j: int, n: u64) -> bool {
    exists|l: int| 0 <= l < j && (#[trigger] files[l]).name == n && files[l].upload_ms is None
}

/// Whether one of the first `i` snapshot entries holds a file with the given
/// name that is missing its upload timestamp.
pub open spec fn missing_in_prefix(entries: Seq<SnapshotEntry>, i: int, n: u64) -> bool {
    exists|k: int|
        0 <= k < i && missing_in_files(
            (#[trigger] entries[k]).files@,
            entries[k].files@.len() as int,
            n,
        )
}

/// Whether any snapshot entry holds a file with the given name that is
/// missing its upload timestamp.
pub open spec fn missing_upload_in(entries: Seq<SnapshotEntry>, n: u64) -> bool {
    missing_in_prefix(entries, entries.len() as int, n)
}

/// The pairs the map yields when iterated: every version whose candidate
/// resolves, in version order, with its winner.
pub open spec fn resolved_seq(s: Seq<(Version, CandidateModel)>) -> Seq<(Version, ResolvableDist)>
    decreases s.len(),
{
    if s.len() == 0 {
        Seq::empty()
    } else {
        let rest = resolved_seq(s.drop_last());
        match model_resolve(s.last().1) {
            Some(d) => rest.push((s.last().0, d)),
            None => rest,
        }
    }
}

/// Whether one of the first `m` table entries carries the version.
pub open spec fn prefix_has_key(s: Seq<(Version, CandidateModel)>, m: int, w: Version) -> bool {
    exists|l: int| 0 <= l < m && (#[trigger] s[l]).0 == w
}

/// Looks the binary's tag up in the active tag set.
pub fn compatibility_exec(tags: &Tags, tag: u64) -> (r: Option<u64>)
    ensures
        r == compatibility(tags.priorities@, tag),
{
    let ghost full = tags.priorities@;
    let mut i: usize = 0;
    proof {
        assert(full.skip(0) =~= full);
    }
    while i < tags.priorities.len()
        invariant
            i <= full.len(),
            full == tags.priorities@,
            compatibility(full, tag) == compatibility(full.skip(i as int), tag),
        decreases full.len() - i,
    {
        let pair = tags.priorities[i];
        proof {
            assert(full.skip(i as int)[0] == full[i as int]);
        }
        if pair.0 == tag {
            return Some(pair.1);
        }
        proof {
            assert(full.skip(i as int).drop_first() =~= full.skip(i as int + 1));
        }
        i = i + 1;
    }
    proof {
        assert(full.skip(full.len() as int) =~= Seq::<(u64, u64)>::empty());
    }
    None
}

/// Decides whether a digest list holds the value.
fn contains_u64(v: &Vec<u64>, x: u64) -> (r: bool)
    ensures
        r == v@.contains(x),
{
    let mut i: usize = 0;
    while i < v.len()
        invariant
            i <= v@.len(),
            forall|l: int| 0 <= l < i ==> v@[l] != x,
        decreases v@.len() - i,
    {
        if v[i] == x {
            return true;
        }
        i = i + 1;
    }
    proof {
        if v@.contains(x) {
            let l = choose|l: int| 0 <= l < v@.len() && v@[l] == x;
            assert(v@[l] != x);
        }
    }
    false
}

/// Decides [`policy_excludes`].
pub fn policy_excludes_exec(p: &BinaryPolicy, package: u64) -> (r: bool)
    ensures
        r == policy_excludes(*p, package),
{
    match p {
        BinaryPolicy::AllowAll => false,
        BinaryPolicy::ExcludeAll => true,
        BinaryPolicy::ExcludePackages(packages) => contains_u64(packages, package),
    }
}

/// Decides [`requirement_ok`].
pub fn requirement_ok_exec(r: &Option<RuntimeRequirement>, target: &Version) -> (b: bool)
    ensures
        b == requirement_ok(*r, *target),
{
    match r {
        Some(rr) => crate::candidate::requirement_contains_exec(rr, target),
        None => true,
    }
}

/// Decides [`yank_of`].
fn yank_of_exec(y: &Option<Yanked>) -> (r: Yanked)
    ensures
        r == yank_of(*y),
{
    match y {
        Some(v) => *v,
        None => Yanked::Flag(false),
    }
}

/// Records a warning once: the name is appended only if it is not recorded
/// yet, so each distinct name is warned about exactly once.
fn note_warning(warnings: &mut Vec<u64>, name: u64)
    ensures
        (*old(warnings))@.no_duplicates() ==> (*final(warnings))@.no_duplicates(),
        forall|n: u64|
            #[trigger] (*final(warnings))@.contains(n) <==> ((*old(warnings))@.contains(n) || n
                == name),
{
    let ghost w0 = warnings@;
    if !contains_u64(warnings, name) {
        warnings.push(name);
        proof {
            assert(warnings@ == w0.push(name));
            if w0.no_duplicates() {
                assert forall|a: int, b: int|
                    0 <= a < warnings@.len() && 0 <= b < warnings@.len() && a != b implies
                    warnings@[a] != warnings@[b] by {
                    if a < w0.len() && b < w0.len() {
                    } else if a == w0.len() {
                        assert(warnings@[b] == w0[b]);
                        assert(!w0.contains(name));
                    } else {
                        assert(warnings@[a] == w0[a]);
                        assert(!w0.contains(name));
                    }
                }
            }
            assert forall|n: u64|
                #[trigger] warnings@.contains(n) <==> (w0.contains(n) || n == name) by {
                if warnings@.contains(n) {
                    let l = choose|l: int| 0 <= l < warnings@.len() && warnings@[l] == n;
                    if l < w0.len() {
                        assert(w0[l] == n);
                    }
                } else {
                }
                if w0.contains(n) {
                    let l = choose|l: int| 0 <= l < w0.len() && w0[l] == n;
                    assert(warnings@[l] == n);
                }
                if n == name {
                    assert(warnings@[w0.len() as int] == n);
                }
            }
        }
    }
}

/// A map from versions to the candidates selected for them. Built once, then
/// read-only; the entries are strictly sorted by version, so a version has at
/// most one candidate and iteration follows version order.
#[derive(Debug)]
pub struct VersionMap {
    entries: Vec<(Version, PrioritizedCandidate)>,
}

impl View for VersionMap {
    type V = Seq<(Version, CandidateModel)>;

    closed spec fn view(&self) -> Seq<(Version, CandidateModel)> {
        table_models(self.entries@)
    }
}

impl VersionMap {
    /// Strictly sorted by version.
    pub open spec fn wf(self) -> bool {
        sorted_models(self@)
    }

    /// Builds the map from the registry snapshot under the given resolution
    /// context: per version, every file surviving the reproducibility cutoff
    /// and the binary policy is folded into a prioritized candidate, starting
    /// from (and consuming) the override candidate recorded for that version;
    /// versions known only to the override source are then adopted wholesale.
    /// Besides the map, it returns the distinct filenames that were dropped
    /// for lacking an upload timestamp while a cutoff was set — each warned
    /// about once per construction. A caller that builds many maps and wants
    /// each warning emitted once per process deduplicates across builds.
    pub fn from_metadata(
        entries: Vec<SnapshotEntry>,
        package_name: u64,
        index: u64,
        tags: &Tags,
        runtime_target: Version,
        exclude_newer: Option<i64>,
        override_source: Option<OverrideSource>,
        no_binary: &BinaryPolicy,
    ) -> (r: (VersionMap, Vec<u64>))
        requires
            entries_sorted(entries@),
            override_source matches Some(o) ==> o.wf(),
        ensures
            ({
                let ctx = BuildContext {
                    index,
                    tags: tags.priorities@,
                    target: runtime_target,
                    exclude_newer,
                    no_binary: policy_excludes(*no_binary, package_name),
                };
                let ovr0 = opt_models(override_source);
                &&& r.0.wf()
                &&& forall|v: Version|
                    #[trigger] has_version(r.0@, v) <==> (snapshot_has_version(entries@, v)
                        || has_version(ovr0, v))
                &&& forall|k: int|
                    0 <= k < entries@.len() ==> find_model(
                        r.0@,
                        (#[trigger] entries@[k]).version,
                    ) == Some(
                        folded(
                            init_for(ovr0, entries@[k].version),
                            entries@[k].files@,
                            ctx,
                        ),
                    )
                &&& forall|v: Version|
                    !snapshot_has_version(entries@, v) ==> #[trigger] find_model(r.0@, v)
                        == find_model(ovr0, v)
                &&& r.1@.no_duplicates()
                &&& forall|n: u64|
                    #[trigger] r.1@.contains(n) <==> (exclude_newer is Some && missing_upload_in(
                        entries@,
                        n,
                    ))
            }),
    {
        let ghost ctx = BuildContext {
            index,
            tags: tags.priorities@,
            target: runtime_target,
            exclude_newer,
            no_binary: policy_excludes(*no_binary, package_name),
        };
        let ghost ovr0 = opt_models(override_source);
        let no_binary_flag = policy_excludes_exec(no_binary, package_name);
        let mut ovr = match override_source {
            Some(o) => o,
            None => OverrideSource::new(),
        };
        proof {
            assert(ovr@ == ovr0);
        }
        let mut out: Vec<(Version, PrioritizedCandidate)> = Vec::new();
        let mut warnings: Vec<u64> = Vec::new();
        let mut i: usize = 0;
        while i < entries.len()
            invariant
                i <= entries@.len(),
                entries_sorted(entries@),
                ctx.index == index,
                ctx.tags == tags.priorities@,
                ctx.target == runtime_target,
                ctx.exclude_newer == exclude_newer,
                ctx.no_binary == no_binary_flag,
                ovr.wf(),
                out@.len() == i,
                forall|k: int|
                    0 <= k < i ==> #[trigger] table_models(out@)[k] == (
                        entries@[k].version,
                        folded(init_for(ovr0, entries@[k].version), entries@[k].files@, ctx),
                    ),
                forall|w: Version|
                    #[trigger] find_model(ovr@, w) == (if prefix_has_version(
                        entries@,
                        i as int,
                        w,
                    ) {
                        None::<CandidateModel>
                    } else {
                        find_model(ovr0, w)
                    }),
                warnings@.no_duplicates(),
                forall|n: u64|
                    #[trigger] warnings@.contains(n) <==> (exclude_newer is Some
                        && missing_in_prefix(entries@, i as int, n)),
            decreases entries@.len() - i,
        {
            let version = entries[i].version;
            proof {
                if prefix_has_version(entries@, i as int, version) {
                    let k = choose|k: int|
                        0 <= k < i && (#[trigger] entries@[k]).version == version;
                    assert(version_lt(entries@[k].version, entries@[i as int].version));
                    crate::version::lemma_version_lt_irreflexive(version);
                }
            }
            let removed = ovr.remove(&version);
            let ghost init_i = init_for(ovr0, version);
            let mut cand = match removed {
                Some(c) => c,
                None => PrioritizedCandidate::new(),
            };
            proof {
                assert(cand@ == init_i);
                assert forall|w: Version|
                    #[trigger] find_model(ovr@, w) == (if prefix_has_version(
                        entries@,
                        i as int + 1,
                        w,
                    ) {
                        None::<CandidateModel>
                    } else {
                        find_model(ovr0, w)
                    }) by {
                    if w == version {
                        assert(entries@[i as int].version == w);
                        assert(prefix_has_version(entries@, i as int + 1, w));
                    } else {
                        if prefix_has_version(entries@, i as int + 1, w) {
                            let k = choose|k: int|
                                0 <= k < i as int + 1 && (#[trigger] entries@[k]).version == w;
                            assert(k < i);
                            assert(prefix_has_version(entries@, i as int, w));
                        }
                        if prefix_has_version(entries@, i as int, w) {
                            let k = choose|k: int|
                                0 <= k < i && (#[trigger] entries@[k]).version == w;
                            assert(0 <= k < i as int + 1 && entries@[k].version == w);
                        }
                    }
                }
            }
            let ghost files = entries@[i as int].files@;
            proof {
                assert(files.take(0) =~= Seq::<FileRecord>::empty());
            }
            let mut j: usize = 0;
            while j < entries[i].files.len()
                invariant
                    i < entries@.len(),
                    files == entries@[i as int].files@,
                    j <= files.len(),
                    ctx.index == index,
                    ctx.tags == tags.priorities@,
                    ctx.target == runtime_target,
                    ctx.exclude_newer == exclude_newer,
                    ctx.no_binary == no_binary_flag,
                    cand@ == folded(init_i, files.take(j as int), ctx),
                    warnings@.no_duplicates(),
                    forall|n: u64|
                        #[trigger] warnings@.contains(n) <==> (exclude_newer is Some && (
                        missing_in_prefix(entries@, i as int, n) || missing_in_files(
                            files,
                            j as int,
                            n,
                        ))),
                decreases files.len() - j,
            {
                let f = &entries[i].files[j];
                let ghost fj = files[j as int];
                let ghost w_before = warnings@;
                let mut dropped = false;
                let mut warned = false;
                if let Some(cut) = exclude_newer {
                    match f.upload_ms {
                        Some(t) => {
                            if t >= cut {
                                dropped = true;
                            }
                        },
                        None => {
                            note_warning(&mut warnings, f.name);
                            dropped = true;
                            warned = true;
                        },
                    }
                }
                proof {
                    assert(dropped == dropped_by_cutoff(fj, ctx));
                }
                if !dropped {
                    match f.kind {
                        FileKind::Wheel { tag } => {
                            if !no_binary_flag {
                                let score = if requirement_ok_exec(
                                    &f.requirement,
                                    &runtime_target,
                                ) {
                                    compatibility_exec(tags, tag)
                                } else {
                                    None
                                };
                                let yanked = yank_of_exec(&f.yanked);
                                cand.insert_built(
                                    Dist { filename: f.name, index },
                                    f.requirement,
                                    yanked,
                                    &f.digests,
                                    score,
                                );
                            }
                        },
                        FileKind::Sdist => {
                            let yanked = yank_of_exec(&f.yanked);
                            cand.insert_source(
                                Dist { filename: f.name, index },
                                f.requirement,
                                yanked,
                                &f.digests,
                            );
                        },
                    }
                }
                proof {
                    assert(files.take(j as int + 1).drop_last() =~= files.take(j as int));
                    assert(files.take(j as int + 1).last() == fj);
                    assert(folded(init_i, files.take(j as int + 1), ctx) == step(
                        folded(init_i, files.take(j as int), ctx),
                        fj,
                        ctx,
                    ));
                    assert(cand@ == folded(init_i, files.take(j as int + 1), ctx));
                    assert forall|n: u64|
                        #[trigger] warnings@.contains(n) <==> (exclude_newer is Some && (
                        missing_in_prefix(entries@, i as int, n) || missing_in_files(
                            files,
                            j as int + 1,
                            n,
                        ))) by {
                        if warned {
                            assert(fj.upload_ms is None);
                            if warnings@.contains(n) {
                                if !w_before.contains(n) {
                                    assert(n == fj.name);
                                    assert(missing_in_files(files, j as int + 1, n));
                                } else {
                                    if missing_in_files(files, j as int, n) {
                                        let l = choose|l: int|
                                            0 <= l < j && (#[trigger] files[l]).name == n
                                                && files[l].upload_ms is None;
                                        assert(missing_in_files(files, j as int + 1, n));
                                    }
                                }
                            }
                            if exclude_newer is Some && missing_in_files(files, j as int + 1, n) {
                                let l = choose|l: int|
                                    0 <= l < j as int + 1 && (#[trigger] files[l]).name == n
                                        && files[l].upload_ms is None;
                                if l < j {
                                    assert(missing_in_files(files, j as int, n));
                                } else {
                                    assert(n == fj.name);
                                }
                            }
                        } else {
                            assert(warnings@ == w_before);
                            if exclude_newer is Some {
                                if missing_in_files(files, j as int + 1, n) {
                                    let l = choose|l: int|
                                        0 <= l < j as int + 1 && (#[trigger] files[l]).name == n
                                            && files[l].upload_ms is None;
                                    if l == j {
                                        assert(fj.upload_ms is None);
                                        assert(false);
                                    }
                                    assert(missing_in_files(files, j as int, n));
                                }
                                if missing_in_files(files, j as int, n) {
                                    let l = choose|l: int|
                                        0 <= l < j && (#[trigger] files[l]).name == n
                                            && files[l].upload_ms is None;
                                    assert(0 <= l < j as int + 1 && files[l].name == n
                                        && files[l].upload_ms is None);
                                }
                            }
                        }
                    }
                }
                j = j + 1;
            }
            proof {
                assert(files.take(files.len() as int) =~= files);
            }
            let ghost out_before = out@;
            out.push((version, cand));
            proof {
                assert(table_models(out@) =~= table_models(out_before).push((version, cand@)));
                assert forall|k: int|
                    0 <= k < i as int + 1 implies #[trigger] table_models(out@)[k] == (
                    entries@[k].version,
                    folded(init_for(ovr0, entries@[k].version), entries@[k].files@, ctx),
                ) by {
                    if k < i {
                        assert(table_models(out@)[k] == table_models(out_before)[k]);
                    }
                }
                assert forall|n: u64|
                    #[trigger] warnings@.contains(n) <==> (exclude_newer is Some
                        && missing_in_prefix(entries@, i as int + 1, n)) by {
                    if exclude_newer is Some {
                        if missing_in_prefix(entries@, i as int + 1, n) {
                            let k = choose|k: int|
                                0 <= k < i as int + 1 && missing_in_files(
                                    (#[trigger] entries@[k]).files@,
                                    entries@[k].files@.len() as int,
                                    n,
                                );
                            if k < i {
                                assert(missing_in_prefix(entries@, i as int, n));
                            } else {
                                assert(missing_in_files(files, files.len() as int, n));
                            }
                        }
                        if missing_in_prefix(entries@, i as int, n) {
                            let k = choose|k: int|
                                0 <= k < i && missing_in_files(
                                    (#[trigger] entries@[k]).files@,
                                    entries@[k].files@.len() as int,
                                    n,
                                );
                            assert(0 <= k < i as int + 1 && missing_in_files(
                                entries@[k].files@,
                                entries@[k].files@.len() as int,
                                n,
                            ));
                        }
                        if missing_in_files(files, files.len() as int, n) {
                            assert(missing_in_prefix(entries@, i as int + 1, n));
                        }
                    }
                }
            }
            i = i + 1;
        }
        let ghost outm0 = table_models(out@);
        proof {
            assert forall|a: int, b: int|
                0 <= a < b < outm0.len() implies version_lt(
                #[trigger] outm0[a].0,
                #[trigger] outm0[b].0,
            ) by {
                assert(outm0[a].0 == entries@[a].version);
                assert(outm0[b].0 == entries@[b].version);
            }
            assert forall|k: int|
                0 <= k < entries@.len() implies #[trigger] find_model(
                outm0,
                entries@[k].version,
            ) == Some(
                folded(init_for(ovr0, entries@[k].version), entries@[k].files@, ctx),
            ) by {
                crate::table::lemma_sorted_find_at(outm0, k);
            }
        }
        let rest = ovr.into_entries();
        let ghost restm = table_models(rest@);
        proof {
            assert forall|w: Version|
                #[trigger] find_model(restm, w) == (if snapshot_has_version(entries@, w) {
                    None::<CandidateModel>
                } else {
                    find_model(ovr0, w)
                }) by {
                assert(find_model(ovr@, w) == find_model(restm, w));
            }
            assert forall|w: Version|
                !snapshot_has_version(entries@, w) implies #[trigger] find_model(
                table_models(out@),
                w,
            ) == (if prefix_has_key(restm, 0, w) {
                find_model(restm, w)
            } else {
                None::<CandidateModel>
            }) by {
                assert forall|k: int|
                    0 <= k < table_models(out@).len() implies (#[trigger] table_models(
                    out@,
                )[k]).0 != w by {
                    if table_models(out@)[k].0 == w {
                        assert(entries@[k].version == w);
                        assert(snapshot_has_version(entries@, w));
                    }
                }
                crate::table::lemma_find_model_absent(table_models(out@), w);
            }
        }
        let mut rest = rest;
        let ghost mut m: int = 0;
        proof {
            assert(restm.skip(0) =~= restm);
        }
        while rest.len() > 0
            invariant
                0 <= m,
                m + rest@.len() == restm.len(),
                table_models(rest@) == restm.skip(m),
                sorted_models(restm),
                entries_sorted(entries@),
                forall|w: Version|
                    #[trigger] find_model(restm, w) == (if snapshot_has_version(entries@, w) {
                        None::<CandidateModel>
                    } else {
                        find_model(ovr0, w)
                    }),
                sorted_models(table_models(out@)),
                forall|k: int|
                    0 <= k < entries@.len() ==> find_model(
                        table_models(out@),
                        (#[trigger] entries@[k]).version,
                    ) == Some(
                        folded(init_for(ovr0, entries@[k].version), entries@[k].files@, ctx),
                    ),
                forall|w: Version|
                    !snapshot_has_version(entries@, w) ==> #[trigger] find_model(
                        table_models(out@),
                        w,
                    ) == (if prefix_has_key(restm, m, w) {
                        find_model(restm, w)
                    } else {
                        None::<CandidateModel>
                    }),
            decreases rest@.len(),
        {
            proof {
                assert(table_models(rest@)[0] == restm[m]);
            }
            let ghost rest_before = rest@;
            let pair = rest.remove(0);
            let ghost vm = restm[m].0;
            proof {
                assert(pair.0 == vm && pair.1@ == restm[m].1);
                assert(rest@ == rest_before.remove(0));
                assert forall|l: int|
                    0 <= l < rest@.len() implies #[trigger] table_models(rest@)[l] == restm.skip(
                    m + 1,
                )[l] by {
                    assert(rest@[l] == rest_before[l + 1]);
                    assert(table_models(rest_before)[l + 1] == restm.skip(m)[l + 1]);
                }
                assert(table_models(rest@) =~= restm.skip(m + 1));
                crate::table::lemma_sorted_find_at(restm, m);
                assert(find_model(restm, vm) is Some);
                assert(!snapshot_has_version(entries@, vm));
                crate::table::lemma_sorted_distinct_keys(restm);
                if prefix_has_key(restm, m, vm) {
                    let l = choose|l: int| 0 <= l < m && (#[trigger] restm[l]).0 == vm;
                    assert(restm[l].0 != restm[m].0);
                }
                assert(find_model(table_models(out@), vm) is None);
            }
            let ghost outm_before = table_models(out@);
            crate::table::table_insert(&mut out, pair.0, pair.1);
            proof {
                assert forall|k: int|
                    0 <= k < entries@.len() implies find_model(
                    table_models(out@),
                    (#[trigger] entries@[k]).version,
                ) == Some(
                    folded(init_for(ovr0, entries@[k].version), entries@[k].files@, ctx),
                ) by {
                    assert(entries@[k].version != vm);
                }
                assert forall|w: Version|
                    !snapshot_has_version(entries@, w) implies #[trigger] find_model(
                    table_models(out@),
                    w,
                ) == (if prefix_has_key(restm, m + 1, w) {
                    find_model(restm, w)
                } else {
                    None::<CandidateModel>
                }) by {
                    if w == vm {
                        assert(prefix_has_key(restm, m + 1, vm));
                        assert(find_model(table_models(out@), vm) == Some(restm[m].1));
                    } else {
                        assert(find_model(table_models(out@), w) == find_model(outm_before, w));
                        if prefix_has_key(restm, m + 1, w) {
                            let l = choose|l: int|
                                0 <= l < m + 1 && (#[trigger] restm[l]).0 == w;
                            assert(l < m);
                            assert(prefix_has_key(restm, m, w));
                        }
                        if prefix_has_key(restm, m, w) {
                            let l = choose|l: int| 0 <= l < m && (#[trigger] restm[l]).0 == w;
                            assert(0 <= l < m + 1 && restm[l].0 == w);
                        }
                    }
                }
                m = m + 1;
            }
        }
        proof {
            assert(m == restm.len());
            assert forall|w: Version|
                !snapshot_has_version(entries@, w) implies #[trigger] find_model(
                table_models(out@),
                w,
            ) == find_model(restm, w) by {
                if find_model(restm, w) is Some {
                    let l = crate::table::lemma_find_model_witness(restm, w);
                    assert(prefix_has_key(restm, m, w));
                } else {
                    if prefix_has_key(restm, m, w) {
                        let l = choose|l: int|
                            0 <= l < m && (#[trigger] restm[l]).0 == w;
                        crate::table::lemma_sorted_find_at(restm, l);
                    }
                }
            }
        }
        let map = VersionMap { entries: out };
        proof {
            assert forall|v: Version|
                #[trigger] has_version(map@, v) <==> (snapshot_has_version(entries@, v)
                    || has_version(ovr0, v)) by {
                if snapshot_has_version(entries@, v) {
                    let k = choose|k: int|
                        0 <= k < entries@.len() && (#[trigger] entries@[k]).version == v;
                    assert(find_model(map@, entries@[k].version) is Some);
                } else {
                    assert(find_model(map@, v) == find_model(restm, v));
                    assert(find_model(restm, v) == find_model(ovr0, v));
                }
            }
        }
        (map, warnings)
    }

    /// The winning candidate for the version: the best compatible binary if
    /// one survived, else the source candidate, else nothing — also nothing
    /// when the version is absent altogether.
    pub fn get(&self, version: &Version) -> (r: Option<ResolvableDist>)
        ensures
            r == match find_model(self@, *version) {
                Some(m) => model_resolve(m),
                None => None,
            },
    {
        match crate::table::table_find(&self.entries, version) {
            Some(c) => c.get(),
            None => None,
        }
    }

    /// Every version with a winning candidate, in ascending version order,
    /// with its winner. Versions whose candidate resolves to nothing are
    /// skipped. The vector supports traversal from either end; the resolver
    /// probes the highest version first by walking it backwards.
    pub fn iter(&self) -> (r: Vec<(Version, ResolvableDist)>)
        ensures
            r@ == resolved_seq(self@),
    {
        let mut r: Vec<(Version, ResolvableDist)> = Vec::new();
        let mut i: usize = 0;
        proof {
            assert(self@.take(0) =~= Seq::<(Version, CandidateModel)>::empty());
        }
        while i < self.entries.len()
            invariant
                i <= self.entries@.len(),
                self@ == table_models(self.entries@),
                r@ == resolved_seq(self@.take(i as int)),
            decreases self.entries@.len() - i,
        {
            let version = self.entries[i].0;
            let winner = self.entries[i].1.get();
            proof {
                assert(self@.take(i + 1 as int).drop_last() =~= self@.take(i as int));
                assert(self@.take(i + 1 as int).last() == self@[i as int]);
            }
            match winner {
                Some(d) => {
                    r.push((version, d));
                },
                None => {},
            }
            i = i + 1;
        }
        proof {
            assert(self@.take(self.entries@.len() as int) =~= self@);
        }
        r
    }

    /// The accumulated integrity digests of the version's candidates, from
    /// every file that contributed to the version, whichever candidate won;
    /// empty when the version is absent.
    pub fn hashes(&self, version: &Version) -> (r: Vec<u64>)
        ensures
            r@ == match find_model(self@, *version) {
                Some(m) => m.digests,
                None => Seq::<u64>::empty(),
            },
    {
        match crate::table::table_find(&self.entries, version) {
            Some(c) => c.hashes(),
            None => Vec::new(),
        }
    }
}

/// A version map can be built from an override source alone (a purely local
/// package with no registry snapshot): each entry is adopted verbatim.
impl From<OverrideSource> for VersionMap {
    fn from(source: OverrideSource) -> (r: VersionMap) {
        VersionMap { entries: source.into_entries() }
    }
}

/// Adopting an override source wholesale keeps its table: the map holds
/// exactly the source's entries, and a well-formed source gives a well-formed
/// map.
pub proof fn lemma_from_override(source: OverrideSource)
    ensures
        (<VersionMap as vstd::std_specs::convert::FromSpec<OverrideSource>>::from_spec(source))@
            == source@,
        source.wf() ==> (<VersionMap as vstd::std_specs::convert::FromSpec<
            OverrideSource,
        >>::from_spec(source)).wf(),
{
    source.lemma_spec_inner();
}

impl vstd::std_specs::convert::FromSpecImpl<OverrideSource> for VersionMap {
    open spec fn obeys_from_spec() -> bool {
        true
    }

    closed spec fn from_spec(source: OverrideSource) -> VersionMap {
        VersionMap { entries: source.spec_inner() }
    }
}

} // verus!
