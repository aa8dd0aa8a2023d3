//! A table of per-version candidates kept sorted by version: the shared
//! representation of the version map and of the override source.

use vstd::prelude::*;

use crate::candidate::CandidateModel;
use crate::candidate::PrioritizedCandidate;
use crate::version::Version;
use crate::version::version_lt;
use crate::version::version_lt_exec;
use crate::version::version_eq_exec;
use crate::version::lemma_version_lt_connected;

verus! {

/// The model of a table: the versions in order, each with its candidate model.
pub open spec fn table_models(s: Seq<(Version, PrioritizedCandidate)>) -> Seq<
    (Version, CandidateModel),
> {
    Seq::new(s.len(), |i: int| (s[i].0, s[i].1@))
}

/// Strictly sorted by version: the key order is the iteration order, and
/// strictness gives at most one entry per version.
pub open spec fn sorted_models(s: Seq<(Version, CandidateModel)>) -> bool {
    forall|i: int, j: int|
        0 <= i < j < s.len() ==> version_lt(#[trigger] s[i].0, #[trigger] s[j].0)
}

/// The candidate recorded for a version: the first entry with that key, if
/// any.
pub open spec fn find_model(s: Seq<(Version, CandidateModel)>, v: Version) -> Option<
    CandidateModel,
>
    decreases s.len(),
{
    if s.len() == 0 {
        None
    } else if s[0].0 == v {
        Some(s[0].1)
    } else {
        find_model(s.drop_first(), v)
    }
}

/// Whether the table has an entry for the version.
pub open spec fn has_version(s: Seq<(Version, CandidateModel)>, v: Version) -> bool {
    find_model(s, v) is Some
}

/// If the first entry with key `v` stands at position `k`, the lookup returns
/// its candidate.
pub proof fn lemma_find_model_at(s: Seq<(Version, CandidateModel)>, v: Version, k: int)
    requires
        0 <= k < s.len(),
        s[k].0 == v,
        forall|l: int| 0 <= l < k ==> (#[trigger] s[l]).0 != v,
    ensures
        find_model(s, v) == Some(s[k].1),
    decreases k,
{
    if k == 0 {
    } else {
        assert(s[0].0 != v);
        lemma_find_model_at(s.drop_first(), v, k - 1);
    }
}

/// A lookup for a version no entry has returns nothing.
pub proof fn lemma_find_model_absent(s: Seq<(Version, CandidateModel)>, v: Version)
    requires
        forall|k: int| 0 <= k < s.len() ==> (#[trigger] s[k]).0 != v,
    ensures
        find_model(s, v) is None,
    decreases s.len(),
{
    if s.len() > 0 {
        lemma_find_model_absent(s.drop_first(), v);
    }
}

/// A lookup that returns nothing means no entry has the version.
pub proof fn lemma_find_model_none(s: Seq<(Version, CandidateModel)>, v: Version)
    requires
        find_model(s, v) is None,
    ensures
        forall|k: int| 0 <= k < s.len() ==> (#[trigger] s[k]).0 != v,
    decreases s.len(),
{
    if s.len() > 0 {
        lemma_find_model_none(s.drop_first(), v);
        assert forall|k: int| 0 <= k < s.len() implies (#[trigger] s[k]).0 != v by {
            if k > 0 {
                assert(s.drop_first()[k - 1] == s[k]);
            }
        }
    }
}

/// A found candidate stands somewhere in the table.
pub proof fn lemma_find_model_witness(s: Seq<(Version, CandidateModel)>, v: Version) -> (k: int)
    requires
        find_model(s, v) is Some,
    ensures
        0 <= k < s.len(),
        s[k].0 == v,
        s[k].1 == find_model(s, v)->0,
    decreases s.len(),
{
    if s[0].0 == v {
        0
    } else {
        lemma_find_model_witness(s.drop_first(), v) + 1
    }
}

/// Inserting an entry with a fresh key at any position records that key and
/// leaves every other lookup unchanged.
pub proof fn lemma_find_model_insert(
    s: Seq<(Version, CandidateModel)>,
    pos: int,
    p: (Version, CandidateModel),
)
    requires
        0 <= pos <= s.len(),
        forall|k: int| 0 <= k < s.len() ==> (#[trigger] s[k]).0 != p.0,
    ensures
        find_model(s.insert(pos, p), p.0) == Some(p.1),
        forall|w: Version| w != p.0 ==> #[trigger] find_model(s.insert(pos, p), w) == find_model(
            s,
            w,
        ),
{
    let t = s.insert(pos, p);
    assert forall|l: int| 0 <= l < pos implies (#[trigger] t[l]).0 != p.0 by {
        assert(t[l] == s[l]);
    }
    lemma_find_model_at(t, p.0, pos);
    assert forall|w: Version| w != p.0 implies #[trigger] find_model(t, w) == find_model(s, w) by {
        if find_model(s, w) is Some {
            let k = lemma_find_model_witness(s, w);
            let kf = first_key_index(s, w, k);
            let kt = if kf < pos {
                kf
            } else {
                kf + 1
            };
            assert(t[kt] == s[kf]);
            assert forall|l: int| 0 <= l < kt implies (#[trigger] t[l]).0 != w by {
                if l < pos {
                    assert(t[l] == s[l]);
                } else if l == pos {
                    assert(t[l] == p);
                } else {
                    assert(t[l] == s[l - 1]);
                }
            }
            lemma_find_model_at(t, w, kt);
            lemma_find_model_at(s, w, kf);
        } else {
            lemma_find_model_none(s, w);
            assert forall|l: int| 0 <= l < t.len() implies (#[trigger] t[l]).0 != w by {
                if l < pos {
                    assert(t[l] == s[l]);
                } else if l == pos {
                    assert(t[l] == p);
                } else {
                    assert(t[l] == s[l - 1]);
                }
            }
            lemma_find_model_absent(t, w);
        }
    }
}

/// The position of the first entry with key `v`, given that one stands at `k`.
proof fn first_key_index(s: Seq<(Version, CandidateModel)>, v: Version, k: int) -> (r: int)
    requires
        0 <= k < s.len(),
        s[k].0 == v,
    ensures
        0 <= r <= k,
        s[r].0 == v,
        forall|l: int| 0 <= l < r ==> (#[trigger] s[l]).0 != v,
    decreases k,
{
    if exists|l: int| 0 <= l < k && (#[trigger] s[l]).0 == v {
        let l = choose|l: int| 0 <= l < k && (#[trigger] s[l]).0 == v;
        first_key_index(s, v, l)
    } else {
        k
    }
}

/// Removing the entry at a position in a table whose keys are distinct
/// removes its key and leaves every other lookup unchanged.
pub proof fn lemma_find_model_remove(s: Seq<(Version, CandidateModel)>, pos: int)
    requires
        0 <= pos < s.len(),
        forall|i: int, j: int|
            0 <= i < j < s.len() ==> (#[trigger] s[i]).0 != (#[trigger] s[j]).0,
    ensures
        find_model(s.remove(pos), s[pos].0) is None,
        forall|w: Version| w != s[pos].0 ==> #[trigger] find_model(s.remove(pos), w) == find_model(
            s,
            w,
        ),
{
    let t = s.remove(pos);
    assert forall|l: int| 0 <= l < t.len() implies (#[trigger] t[l]).0 != s[pos].0 by {
        if l < pos {
            assert(t[l] == s[l]);
        } else {
            assert(t[l] == s[l + 1]);
        }
    }
    lemma_find_model_absent(t, s[pos].0);
    assert forall|w: Version| w != s[pos].0 implies #[trigger] find_model(t, w) == find_model(
        s,
        w,
    ) by {
        if find_model(s, w) is Some {
            let k = lemma_find_model_witness(s, w);
            let kf = first_key_index(s, w, k);
            let kt = if kf < pos {
                kf
            } else {
                kf - 1
            };
            assert(t[kt] == s[kf]);
            assert forall|l: int| 0 <= l < kt implies (#[trigger] t[l]).0 != w by {
                if l < pos {
                    assert(t[l] == s[l]);
                } else {
                    assert(t[l] == s[l + 1]);
                }
            }
            lemma_find_model_at(t, w, kt);
            lemma_find_model_at(s, w, kf);
        } else {
            lemma_find_model_none(s, w);
            assert forall|l: int| 0 <= l < t.len() implies (#[trigger] t[l]).0 != w by {
                if l < pos {
                    assert(t[l] == s[l]);
                } else {
                    assert(t[l] == s[l + 1]);
                }
            }
            lemma_find_model_absent(t, w);
        }
    }
}

/// In a sorted table the keys are pairwise distinct: at most one candidate
/// per version.
pub proof fn lemma_sorted_distinct_keys(s: Seq<(Version, CandidateModel)>)
    requires
        sorted_models(s),
    ensures
        forall|i: int, j: int|
            0 <= i < j < s.len() ==> (#[trigger] s[i]).0 != (#[trigger] s[j]).0,
{
    assert forall|i: int, j: int|
        0 <= i < j < s.len() implies (#[trigger] s[i]).0 != (#[trigger] s[j]).0 by {
        crate::version::lemma_version_lt_irreflexive(s[i].0);
    }
}

/// In a sorted table, the entry at any position is what the lookup of its key
/// returns.
pub proof fn lemma_sorted_find_at(s: Seq<(Version, CandidateModel)>, k: int)
    requires
        sorted_models(s),
        0 <= k < s.len(),
    ensures
        find_model(s, s[k].0) == Some(s[k].1),
{
    lemma_sorted_distinct_keys(s);
    lemma_find_model_at(s, s[k].0, k);
}

/// The index of the entry for `v`, if the table has one.
pub fn table_index(entries: &Vec<(Version, PrioritizedCandidate)>, v: &Version) -> (r: Option<
    usize,
>)
    ensures
        match r {
            Some(i) => i < entries@.len() && entries@[i as int].0 == *v && forall|l: int|
                0 <= l < i ==> (#[trigger] entries@[l]).0 != *v,
            None => forall|k: int| 0 <= k < entries@.len() ==> (#[trigger] entries@[k]).0 != *v,
        },
{
    let mut i: usize = 0;
    while i < entries.len()
        invariant
            i <= entries@.len(),
            forall|l: int| 0 <= l < i ==> (#[trigger] entries@[l]).0 != *v,
        decreases entries@.len() - i,
    {
        if version_eq_exec(&entries[i].0, v) {
            return Some(i);
        }
        i = i + 1;
    }
    None
}

/// Looks a version up in the table.
pub fn table_find<'a>(entries: &'a Vec<(Version, PrioritizedCandidate)>, v: &Version) -> (r:
    Option<&'a PrioritizedCandidate>)
    ensures
        match r {
            Some(c) => find_model(table_models(entries@), *v) == Some(c@),
            None => find_model(table_models(entries@), *v) is None,
        },
{
    let ghost m = table_models(entries@);
    match table_index(entries, v) {
        Some(i) => {
            proof {
                lemma_find_model_at(m, *v, i as int);
            }
            Some(&entries[i].1)
        },
        None => {
            proof {
                lemma_find_model_absent(m, *v);
            }
            None
        },
    }
}

/// Inserts an entry for a version the table does not hold yet, keeping the
/// table sorted.
pub fn table_insert(
    entries: &mut Vec<(Version, PrioritizedCandidate)>,
    v: Version,
    c: PrioritizedCandidate,
)
    requires
        sorted_models(table_models((*old(entries))@)),
        !has_version(table_models((*old(entries))@), v),
    ensures
        sorted_models(table_models((*final(entries))@)),
        find_model(table_models((*final(entries))@), v) == Some(c@),
        forall|w: Version| w != v ==> #[trigger] find_model(
            table_models((*final(entries))@),
            w,
        ) == find_model(table_models((*old(entries))@), w),
        (*final(entries))@.len() == (*old(entries))@.len() + 1,
{
    let ghost m0 = table_models((*old(entries))@);
    proof {
        assert forall|k: int| 0 <= k < m0.len() implies (#[trigger] m0[k]).0 != v by {
            if m0[k].0 == v {
                lemma_sorted_find_at(m0, k);
            }
        }
    }
    let mut pos: usize = 0;
    while pos < entries.len() && !version_lt_exec(&v, &entries[pos].0)
        invariant
            pos <= entries@.len(),
            m0 == table_models(entries@),
            forall|l: int| 0 <= l < pos ==> version_lt((#[trigger] m0[l]).0, v),
            forall|k: int| 0 <= k < m0.len() ==> (#[trigger] m0[k]).0 != v,
        decreases entries@.len() - pos,
    {
        proof {
            lemma_version_lt_connected(m0[pos as int].0, v);
        }
        pos = pos + 1;
    }
    proof {
        assert(pos < entries@.len() ==> version_lt(v, m0[pos as int].0));
    }
    entries.insert(pos, (v, c));
    proof {
        let m1 = table_models(entries@);
        assert(m1 =~= m0.insert(pos as int, (v, c@)));
        lemma_find_model_insert(m0, pos as int, (v, c@));
        assert forall|i: int, j: int|
            0 <= i < j < m1.len() implies version_lt(#[trigger] m1[i].0, #[trigger] m1[j].0) by {
            if i < pos && j < pos {
                assert(m1[i] == m0[i] && m1[j] == m0[j]);
            } else if i < pos && j == pos {
                assert(m1[i] == m0[i]);
            } else if i < pos && j > pos {
                assert(m1[i] == m0[i] && m1[j] == m0[j - 1]);
                if pos < m0.len() {
                    crate::version::lemma_version_lt_transitive(m0[i].0, v, m0[j - 1].0);
                }
                if j - 1 >= pos && !(i < (j - 1)) {
                    assert(i == j - 1);
                    crate::version::lemma_version_lt_transitive(m0[i].0, v, m0[i].0);
                }
            } else if i == pos && j > pos {
                assert(m1[j] == m0[j - 1]);
            } else {
                assert(m1[i] == m0[i - 1] && m1[j] == m0[j - 1]);
            }
        }
    }
}

} // verus!
