//! Behaviour of the per-version candidate aggregator.

use version_map::candidate::Dist;
use version_map::candidate::PrioritizedCandidate;
use version_map::candidate::ResolvableDist;
use version_map::candidate::RuntimeRequirement;
use version_map::candidate::Yanked;
use version_map::version::Version;

fn ver(major: u64, minor: u64, micro: u64) -> Version {
    Version { epoch: 0, major, minor, micro, pre: None, post: None, local: None }
}

fn dist(filename: u64) -> Dist {
    Dist { filename, index: 0 }
}

fn not_yanked() -> Yanked {
    Yanked::Flag(false)
}

#[test]
fn empty_candidate_resolves_to_nothing() {
    let c = PrioritizedCandidate::new();
    assert_eq!(c.get(), None);
    assert_eq!(c.hashes(), Vec::<u64>::new());
}

#[test]
fn scored_binary_wins_over_source() {
    let mut c = PrioritizedCandidate::new();
    c.insert_built(dist(1), None, not_yanked(), &vec![11], Some(10));
    c.insert_source(dist(2), None, not_yanked(), &vec![22]);
    assert_eq!(
        c.get(),
        Some(ResolvableDist::Built { dist: dist(1), score: 10, yanked: not_yanked() })
    );
}

#[test]
fn unscored_binary_falls_back_to_source() {
    let mut c = PrioritizedCandidate::new();
    c.insert_built(dist(1), None, not_yanked(), &vec![11], None);
    c.insert_source(dist(2), None, not_yanked(), &vec![22]);
    assert_eq!(c.get(), Some(ResolvableDist::Source { dist: dist(2), yanked: not_yanked() }));
}

#[test]
fn unscored_binary_alone_resolves_to_nothing_but_keeps_digests() {
    let mut c = PrioritizedCandidate::new();
    c.insert_built(dist(1), None, not_yanked(), &vec![11, 12], None);
    assert_eq!(c.get(), None);
    assert_eq!(c.hashes(), vec![11, 12]);
}

#[test]
fn higher_score_wins_in_either_order() {
    let mut first = PrioritizedCandidate::new();
    first.insert_built(dist(1), None, not_yanked(), &vec![], Some(10));
    first.insert_built(dist(2), None, not_yanked(), &vec![], Some(5));
    assert_eq!(
        first.get(),
        Some(ResolvableDist::Built { dist: dist(1), score: 10, yanked: not_yanked() })
    );

    let mut second = PrioritizedCandidate::new();
    second.insert_built(dist(2), None, not_yanked(), &vec![], Some(5));
    second.insert_built(dist(1), None, not_yanked(), &vec![], Some(10));
    assert_eq!(
        second.get(),
        Some(ResolvableDist::Built { dist: dist(1), score: 10, yanked: not_yanked() })
    );
}

#[test]
fn first_seen_wins_on_equal_scores() {
    let mut c = PrioritizedCandidate::new();
    c.insert_built(dist(1), None, not_yanked(), &vec![], Some(10));
    c.insert_built(dist(2), None, not_yanked(), &vec![], Some(10));
    assert_eq!(
        c.get(),
        Some(ResolvableDist::Built { dist: dist(1), score: 10, yanked: not_yanked() })
    );
}

#[test]
fn latest_source_replaces_earlier_source() {
    let mut c = PrioritizedCandidate::new();
    c.insert_source(dist(1), None, not_yanked(), &vec![1]);
    c.insert_source(dist(2), None, not_yanked(), &vec![2]);
    assert_eq!(c.get(), Some(ResolvableDist::Source { dist: dist(2), yanked: not_yanked() }));
    assert_eq!(c.hashes(), vec![1, 2]);
}

#[test]
fn digests_accumulate_across_all_insertions() {
    let mut c = PrioritizedCandidate::new();
    c.insert_built(dist(1), None, not_yanked(), &vec![1, 2], Some(4));
    c.insert_built(dist(2), None, not_yanked(), &vec![3], Some(9));
    c.insert_source(dist(3), None, not_yanked(), &vec![4]);
    assert_eq!(c.hashes(), vec![1, 2, 3, 4]);
}

#[test]
fn yank_marker_of_winner_is_surfaced() {
    let mut c = PrioritizedCandidate::new();
    c.insert_built(dist(1), None, Yanked::Reason(7), &vec![], Some(3));
    assert_eq!(
        c.get(),
        Some(ResolvableDist::Built { dist: dist(1), score: 3, yanked: Yanked::Reason(7) })
    );
}

#[test]
fn requirement_is_carried_without_disqualifying() {
    let req = RuntimeRequirement { min: ver(3, 8, 0), max: ver(3, 12, 0) };
    let mut c = PrioritizedCandidate::new();
    c.insert_built(dist(1), Some(req), not_yanked(), &vec![], Some(2));
    assert_eq!(
        c.get(),
        Some(ResolvableDist::Built { dist: dist(1), score: 2, yanked: not_yanked() })
    );
}
