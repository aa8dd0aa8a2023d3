//! Building the version map from a snapshot, a policy and an override
//! source, and querying it.

use version_map::candidate::Dist;
use version_map::candidate::PrioritizedCandidate;
use version_map::candidate::ResolvableDist;
use version_map::candidate::RuntimeRequirement;
use version_map::candidate::Yanked;
use version_map::overrides::OverrideSource;
use version_map::version::Version;
use version_map::version_map::BinaryPolicy;
use version_map::version_map::FileKind;
use version_map::version_map::FileRecord;
use version_map::version_map::SnapshotEntry;
use version_map::version_map::Tags;
use version_map::version_map::VersionMap;

fn ver(major: u64, minor: u64, micro: u64) -> Version {
    Version { epoch: 0, major, minor, micro, pre: None, post: None, local: None }
}

fn pre_ver(major: u64, minor: u64, micro: u64, pre: u64) -> Version {
    Version { epoch: 0, major, minor, micro, pre: Some(pre), post: None, local: None }
}

fn wheel(name: u64, tag: u64, digests: Vec<u64>) -> FileRecord {
    FileRecord {
        name,
        kind: FileKind::Wheel { tag },
        upload_ms: Some(0),
        yanked: None,
        requirement: None,
        digests,
    }
}

fn sdist(name: u64, digests: Vec<u64>) -> FileRecord {
    FileRecord {
        name,
        kind: FileKind::Sdist,
        upload_ms: Some(0),
        yanked: None,
        requirement: None,
        digests,
    }
}

fn tags_with(pairs: Vec<(u64, u64)>) -> Tags {
    Tags { priorities: pairs }
}

fn build(entries: Vec<SnapshotEntry>, tags: &Tags, policy: &BinaryPolicy) -> VersionMap {
    let (map, warnings) =
        VersionMap::from_metadata(entries, 7, 0, tags, ver(3, 11, 0), None, None, policy);
    assert!(warnings.is_empty());
    map
}

const COMPATIBLE_TAG: u64 = 100;

#[test]
fn compatible_wheel_beats_source() {
    let entries = vec![SnapshotEntry {
        version: ver(1, 0, 0),
        files: vec![wheel(1, COMPATIBLE_TAG, vec![]), sdist(2, vec![])],
    }];
    let tags = tags_with(vec![(COMPATIBLE_TAG, 10)]);
    let map = build(entries, &tags, &BinaryPolicy::AllowAll);
    assert_eq!(
        map.get(&ver(1, 0, 0)),
        Some(ResolvableDist::Built {
            dist: Dist { filename: 1, index: 0 },
            score: 10,
            yanked: Yanked::Flag(false),
        })
    );
}

#[test]
fn incompatible_wheel_falls_back_to_source() {
    let entries = vec![SnapshotEntry {
        version: ver(1, 0, 0),
        files: vec![wheel(1, 999, vec![]), sdist(2, vec![])],
    }];
    let tags = tags_with(vec![(COMPATIBLE_TAG, 10)]);
    let map = build(entries, &tags, &BinaryPolicy::AllowAll);
    assert_eq!(
        map.get(&ver(1, 0, 0)),
        Some(ResolvableDist::Source {
            dist: Dist { filename: 2, index: 0 },
            yanked: Yanked::Flag(false),
        })
    );
}

#[test]
fn highest_priority_wheel_wins_both_orders() {
    let tags = tags_with(vec![(100, 10), (200, 5)]);
    for files in [
        vec![wheel(1, 100, vec![]), wheel(2, 200, vec![])],
        vec![wheel(2, 200, vec![]), wheel(1, 100, vec![])],
    ] {
        let entries = vec![SnapshotEntry { version: ver(1, 0, 0), files }];
        let map = build(entries, &tags, &BinaryPolicy::AllowAll);
        assert_eq!(
            map.get(&ver(1, 0, 0)),
            Some(ResolvableDist::Built {
                dist: Dist { filename: 1, index: 0 },
                score: 10,
                yanked: Yanked::Flag(false),
            })
        );
    }
}

#[test]
fn override_not_displaced_by_equal_priority_registry_wheel() {
    let mut over_candidate = PrioritizedCandidate::new();
    over_candidate.insert_built(
        Dist { filename: 50, index: 1 },
        None,
        Yanked::Flag(false),
        &vec![77],
        Some(10),
    );
    let mut source = OverrideSource::new();
    source.insert(ver(1, 0, 0), over_candidate);

    let entries = vec![SnapshotEntry {
        version: ver(1, 0, 0),
        files: vec![wheel(1, COMPATIBLE_TAG, vec![88])],
    }];
    let tags = tags_with(vec![(COMPATIBLE_TAG, 10)]);
    let (map, warnings) = VersionMap::from_metadata(
        entries,
        7,
        0,
        &tags,
        ver(3, 11, 0),
        None,
        Some(source),
        &BinaryPolicy::AllowAll,
    );
    assert!(warnings.is_empty());
    assert_eq!(
        map.get(&ver(1, 0, 0)),
        Some(ResolvableDist::Built {
            dist: Dist { filename: 50, index: 1 },
            score: 10,
            yanked: Yanked::Flag(false),
        })
    );
    assert_eq!(map.hashes(&ver(1, 0, 0)), vec![77, 88]);
}

#[test]
fn override_only_version_is_adopted_wholesale() {
    let mut over_candidate = PrioritizedCandidate::new();
    over_candidate.insert_source(Dist { filename: 9, index: 1 }, None, Yanked::Flag(false), &vec![5]);
    let mut source = OverrideSource::new();
    source.insert(ver(0, 9, 0), over_candidate);

    let entries = vec![SnapshotEntry { version: ver(1, 0, 0), files: vec![sdist(2, vec![])] }];
    let tags = tags_with(vec![]);
    let (map, _) = VersionMap::from_metadata(
        entries,
        7,
        0,
        &tags,
        ver(3, 11, 0),
        None,
        Some(source),
        &BinaryPolicy::AllowAll,
    );
    assert_eq!(
        map.get(&ver(0, 9, 0)),
        Some(ResolvableDist::Source {
            dist: Dist { filename: 9, index: 1 },
            yanked: Yanked::Flag(false),
        })
    );
    let iterated = map.iter();
    assert_eq!(iterated.len(), 2);
    assert_eq!(iterated[0].0, ver(0, 9, 0));
    assert_eq!(iterated[1].0, ver(1, 0, 0));
}

#[test]
fn hashes_union_covers_losing_files() {
    let entries = vec![SnapshotEntry {
        version: ver(1, 0, 0),
        files: vec![wheel(1, COMPATIBLE_TAG, vec![1, 2]), sdist(2, vec![3])],
    }];
    let tags = tags_with(vec![(COMPATIBLE_TAG, 10)]);
    let map = build(entries, &tags, &BinaryPolicy::AllowAll);
    assert_eq!(map.hashes(&ver(1, 0, 0)), vec![1, 2, 3]);
}

#[test]
fn hashes_of_absent_version_are_empty() {
    let entries = vec![SnapshotEntry { version: ver(1, 0, 0), files: vec![sdist(2, vec![3])] }];
    let tags = tags_with(vec![]);
    let map = build(entries, &tags, &BinaryPolicy::AllowAll);
    assert_eq!(map.hashes(&ver(9, 9, 9)), Vec::<u64>::new());
    assert_eq!(map.get(&ver(9, 9, 9)), None);
}

#[test]
fn exclude_all_drops_a_binary_only_version() {
    let entries = vec![SnapshotEntry {
        version: ver(1, 0, 0),
        files: vec![wheel(1, COMPATIBLE_TAG, vec![4])],
    }];
    let tags = tags_with(vec![(COMPATIBLE_TAG, 10)]);
    let map = build(entries, &tags, &BinaryPolicy::ExcludeAll);
    assert_eq!(map.get(&ver(1, 0, 0)), None);
    assert_eq!(map.hashes(&ver(1, 0, 0)), Vec::<u64>::new());
    assert!(map.iter().is_empty());
}

#[test]
fn named_subset_acts_like_exclude_all_for_member() {
    let entries = vec![SnapshotEntry {
        version: ver(1, 0, 0),
        files: vec![wheel(1, COMPATIBLE_TAG, vec![])],
    }];
    let tags = tags_with(vec![(COMPATIBLE_TAG, 10)]);
    let map = build(entries, &tags, &BinaryPolicy::ExcludePackages(vec![7]));
    assert_eq!(map.get(&ver(1, 0, 0)), None);
}

#[test]
fn named_subset_leaves_other_packages_alone() {
    let entries = vec![SnapshotEntry {
        version: ver(1, 0, 0),
        files: vec![wheel(1, COMPATIBLE_TAG, vec![])],
    }];
    let tags = tags_with(vec![(COMPATIBLE_TAG, 10)]);
    let map = build(entries, &tags, &BinaryPolicy::ExcludePackages(vec![8, 9]));
    assert_eq!(
        map.get(&ver(1, 0, 0)),
        Some(ResolvableDist::Built {
            dist: Dist { filename: 1, index: 0 },
            score: 10,
            yanked: Yanked::Flag(false),
        })
    );
}

#[test]
fn scenario_compatible_and_incompatible_versions() {
    let entries = vec![
        SnapshotEntry {
            version: ver(1, 0, 0),
            files: vec![wheel(1, COMPATIBLE_TAG, vec![]), sdist(2, vec![])],
        },
        SnapshotEntry { version: ver(2, 0, 0), files: vec![wheel(3, 999, vec![])] },
    ];
    let tags = tags_with(vec![(COMPATIBLE_TAG, 10)]);
    let map = build(entries, &tags, &BinaryPolicy::AllowAll);
    assert_eq!(
        map.get(&ver(1, 0, 0)),
        Some(ResolvableDist::Built {
            dist: Dist { filename: 1, index: 0 },
            score: 10,
            yanked: Yanked::Flag(false),
        })
    );
    assert_eq!(map.get(&ver(2, 0, 0)), None);
    let descending: Vec<_> = map.iter().into_iter().rev().collect();
    assert_eq!(descending.len(), 1);
    assert_eq!(descending[0].0, ver(1, 0, 0));
}

#[test]
fn exclude_newer_keeps_old_drops_new_and_warns_once() {
    let cutoff: i64 = 1000;
    let mut too_new = sdist(1, vec![1]);
    too_new.upload_ms = Some(1001);
    let mut old_enough = sdist(2, vec![2]);
    old_enough.upload_ms = Some(999);
    let mut undated_a = sdist(3, vec![3]);
    undated_a.upload_ms = None;
    let mut undated_b = sdist(3, vec![4]);
    undated_b.upload_ms = None;

    let entries = vec![
        SnapshotEntry { version: ver(1, 0, 0), files: vec![too_new, undated_a] },
        SnapshotEntry { version: ver(2, 0, 0), files: vec![old_enough, undated_b] },
    ];
    let tags = tags_with(vec![]);
    let (map, warnings) = VersionMap::from_metadata(
        entries,
        7,
        0,
        &tags,
        ver(3, 11, 0),
        Some(cutoff),
        None,
        &BinaryPolicy::AllowAll,
    );
    assert_eq!(map.get(&ver(1, 0, 0)), None);
    assert_eq!(
        map.get(&ver(2, 0, 0)),
        Some(ResolvableDist::Source {
            dist: Dist { filename: 2, index: 0 },
            yanked: Yanked::Flag(false),
        })
    );
    // The same undated filename appeared twice: exactly one warning.
    assert_eq!(warnings, vec![3]);
    // The fully filtered version keeps its entry but is not iterated.
    let iterated = map.iter();
    assert_eq!(iterated.len(), 1);
    assert_eq!(iterated[0].0, ver(2, 0, 0));
}

#[test]
fn upload_time_at_cutoff_is_dropped() {
    let cutoff: i64 = 1000;
    let mut at_cutoff = sdist(1, vec![]);
    at_cutoff.upload_ms = Some(1000);
    let entries = vec![SnapshotEntry { version: ver(1, 0, 0), files: vec![at_cutoff] }];
    let tags = tags_with(vec![]);
    let (map, warnings) = VersionMap::from_metadata(
        entries,
        7,
        0,
        &tags,
        ver(3, 11, 0),
        Some(cutoff),
        None,
        &BinaryPolicy::AllowAll,
    );
    assert_eq!(map.get(&ver(1, 0, 0)), None);
    assert!(warnings.is_empty());
}

#[test]
fn unsatisfied_runtime_requirement_disqualifies_wheel() {
    let mut fussy = wheel(1, COMPATIBLE_TAG, vec![]);
    fussy.requirement = Some(RuntimeRequirement { min: ver(3, 12, 0), max: ver(3, 13, 0) });
    let entries = vec![SnapshotEntry {
        version: ver(1, 0, 0),
        files: vec![fussy, sdist(2, vec![])],
    }];
    let tags = tags_with(vec![(COMPATIBLE_TAG, 10)]);
    let map = build(entries, &tags, &BinaryPolicy::AllowAll);
    assert_eq!(
        map.get(&ver(1, 0, 0)),
        Some(ResolvableDist::Source {
            dist: Dist { filename: 2, index: 0 },
            yanked: Yanked::Flag(false),
        })
    );
}

#[test]
fn satisfied_runtime_requirement_keeps_wheel_eligible() {
    let mut fussy = wheel(1, COMPATIBLE_TAG, vec![]);
    fussy.requirement = Some(RuntimeRequirement { min: ver(3, 8, 0), max: ver(3, 12, 0) });
    let entries = vec![SnapshotEntry { version: ver(1, 0, 0), files: vec![fussy] }];
    let tags = tags_with(vec![(COMPATIBLE_TAG, 10)]);
    let map = build(entries, &tags, &BinaryPolicy::AllowAll);
    assert_eq!(
        map.get(&ver(1, 0, 0)),
        Some(ResolvableDist::Built {
            dist: Dist { filename: 1, index: 0 },
            score: 10,
            yanked: Yanked::Flag(false),
        })
    );
}

#[test]
fn yanked_file_still_selected_and_marker_surfaced() {
    let mut retracted = sdist(1, vec![]);
    retracted.yanked = Some(Yanked::Reason(42));
    let entries = vec![SnapshotEntry { version: ver(1, 0, 0), files: vec![retracted] }];
    let tags = tags_with(vec![]);
    let map = build(entries, &tags, &BinaryPolicy::AllowAll);
    assert_eq!(
        map.get(&ver(1, 0, 0)),
        Some(ResolvableDist::Source {
            dist: Dist { filename: 1, index: 0 },
            yanked: Yanked::Reason(42),
        })
    );
}

#[test]
fn iteration_follows_version_order_with_pre_releases_first() {
    let entries = vec![
        SnapshotEntry { version: pre_ver(1, 0, 0, 1), files: vec![sdist(1, vec![])] },
        SnapshotEntry { version: ver(1, 0, 0), files: vec![sdist(2, vec![])] },
        SnapshotEntry { version: ver(2, 0, 0), files: vec![sdist(3, vec![])] },
    ];
    let tags = tags_with(vec![]);
    let map = build(entries, &tags, &BinaryPolicy::AllowAll);
    let iterated = map.iter();
    assert_eq!(iterated.len(), 3);
    assert_eq!(iterated[0].0, pre_ver(1, 0, 0, 1));
    assert_eq!(iterated[1].0, ver(1, 0, 0));
    assert_eq!(iterated[2].0, ver(2, 0, 0));
}

#[test]
fn map_from_override_source_alone() {
    let mut candidate = PrioritizedCandidate::new();
    candidate.insert_built(
        Dist { filename: 4, index: 2 },
        None,
        Yanked::Flag(false),
        &vec![6],
        Some(1),
    );
    let mut source = OverrideSource::new();
    source.insert(ver(1, 2, 3), candidate);
    let map = VersionMap::from(source);
    assert_eq!(
        map.get(&ver(1, 2, 3)),
        Some(ResolvableDist::Built {
            dist: Dist { filename: 4, index: 2 },
            score: 1,
            yanked: Yanked::Flag(false),
        })
    );
    assert_eq!(map.hashes(&ver(1, 2, 3)), vec![6]);
}

#[test]
fn removed_override_entry_is_claimed_once() {
    let mut candidate = PrioritizedCandidate::new();
    candidate.insert_source(Dist { filename: 4, index: 2 }, None, Yanked::Flag(false), &vec![]);
    let mut source = OverrideSource::new();
    source.insert(ver(1, 0, 0), candidate);
    assert!(source.remove(&ver(1, 0, 0)).is_some());
    assert!(source.remove(&ver(1, 0, 0)).is_none());
}

#[test]
fn oracle_takes_first_matching_tag_entry() {
    let tags = tags_with(vec![(5, 1), (5, 9)]);
    let entries = vec![SnapshotEntry { version: ver(1, 0, 0), files: vec![wheel(1, 5, vec![])] }];
    let map = build(entries, &tags, &BinaryPolicy::AllowAll);
    assert_eq!(
        map.get(&ver(1, 0, 0)),
        Some(ResolvableDist::Built {
            dist: Dist { filename: 1, index: 0 },
            score: 1,
            yanked: Yanked::Flag(false),
        })
    );
}

#[test]
fn empty_snapshot_gives_empty_map() {
    let tags = tags_with(vec![]);
    let map = build(Vec::new(), &tags, &BinaryPolicy::AllowAll);
    assert!(map.iter().is_empty());
    assert_eq!(map.get(&ver(1, 0, 0)), None);
}
