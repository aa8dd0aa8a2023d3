//! Version identifiers and their total order.

use vstd::prelude::*;

verus! {

/// A version identifier: a totally ordered value following the ecosystem's
/// version scheme, with epoch, release segments, and optional pre-release,
/// post-release and local segments. The order defined by [`version_lt`] is the
/// iteration order of the version map.
///
/// Parsing of version strings happens upstream; this component only orders and
/// compares the already-parsed values.
#[derive(Clone, Copy, Debug, PartialEq, Eq)]
pub struct Version {
    pub epoch: u64,
    pub major: u64,
    pub minor: u64,
    pub micro: u64,
    /// A pre-release (alpha/beta/rc) number; a pre-release sorts before the
    /// final release with the same release segments.
    pub pre: Option<u64>,
    /// A post-release number; a post-release sorts after the plain release.
    pub post: Option<u64>,
    /// A local segment; a local version sorts after the same public version.
    pub local: Option<u64>,
}

/// Rank of the pre-release segment: a pre-release (0) sorts before a final
/// release (1).
pub open spec fn pre_rank(p: Option<u64>) -> int {
    if p is Some {
        0
    } else {
        1
    }
}

/// Rank of a post-release or local segment: absent (0) sorts before present (1).
pub open spec fn seg_rank(p: Option<u64>) -> int {
    if p is Some {
        1
    } else {
        0
    }
}

/// Numeric value of an optional segment, with 0 for an absent segment.
pub open spec fn seg_value(p: Option<u64>) -> int {
    if p is Some {
        p->0 as int
    } else {
        0
    }
}

/// The strict total order on versions: lexicographic over epoch, the release
/// segments, then the pre-release, post-release and local segments.
pub open spec fn version_lt(a: Version, b: Version) -> bool {
    if a.epoch != b.epoch {
        a.epoch < b.epoch
    } else if a.major != b.major {
        a.major < b.major
    } else if a.minor != b.minor {
        a.minor < b.minor
    } else if a.micro != b.micro {
        a.micro < b.micro
    } else if pre_rank(a.pre) != pre_rank(b.pre) {
        pre_rank(a.pre) < pre_rank(b.pre)
    } else if seg_value(a.pre) != seg_value(b.pre) {
        seg_value(a.pre) < seg_value(b.pre)
    } else if seg_rank(a.post) != seg_rank(b.post) {
        seg_rank(a.post) < seg_rank(b.post)
    } else if seg_value(a.post) != seg_value(b.post) {
        seg_value(a.post) < seg_value(b.post)
    } else if seg_rank(a.local) != seg_rank(b.local) {
        seg_rank(a.local) < seg_rank(b.local)
    } else {
        seg_value(a.local) < seg_value(b.local)
    }
}

pub proof fn lemma_version_lt_irreflexive(a: Version)
    ensures
        !version_lt(a, a),
{
}

pub proof fn lemma_version_lt_transitive(a: Version, b: Version, c: Version)
    requires
        version_lt(a, b),
        version_lt(b, c),
    ensures
        version_lt(a, c),
{
}

/// Any two distinct versions are ordered one way or the other.
pub proof fn lemma_version_lt_connected(a: Version, b: Version)
    requires
        a != b,
    ensures
        version_lt(a, b) || version_lt(b, a),
{
    if !version_lt(a, b) && !version_lt(b, a) {
        assert(a.pre == b.pre);
        assert(a.post == b.post);
        assert(a.local == b.local);
    }
}

/// Compares two versions in the order of [`version_lt`].
pub fn version_lt_exec(a: &Version, b: &Version) -> (r: bool)
    ensures
        r == version_lt(*a, *b),
{
    if a.epoch != b.epoch {
        return a.epoch < b.epoch;
    }
    if a.major != b.major {
        return a.major < b.major;
    }
    if a.minor != b.minor {
        return a.minor < b.minor;
    }
    if a.micro != b.micro {
        return a.micro < b.micro;
    }
    let apr: u64 = if a.pre.is_some() {
        0
    } else {
        1
    };
    let bpr: u64 = if b.pre.is_some() {
        0
    } else {
        1
    };
    if apr != bpr {
        return apr < bpr;
    }
    let apv: u64 = match a.pre {
        Some(x) => x,
        None => 0,
    };
    let bpv: u64 = match b.pre {
        Some(x) => x,
        None => 0,
    };
    if apv != bpv {
        return apv < bpv;
    }
    let aor: u64 = if a.post.is_some() {
        1
    } else {
        0
    };
    let bor: u64 = if b.post.is_some() {
        1
    } else {
        0
    };
    if aor != bor {
        return aor < bor;
    }
    let aov: u64 = match a.post {
        Some(x) => x,
        None => 0,
    };
    let bov: u64 = match b.post {
        Some(x) => x,
        None => 0,
    };
    if aov != bov {
        return aov < bov;
    }
    let alr: u64 = if a.local.is_some() {
        1
    } else {
        0
    };
    let blr: u64 = if b.local.is_some() {
        1
    } else {
        0
    };
    if alr != blr {
        return alr < blr;
    }
    let alv: u64 = match a.local {
        Some(x) => x,
        None => 0,
    };
    let blv: u64 = match b.local {
        Some(x) => x,
        None => 0,
    };
    alv < blv
}

/// Decides equality of two versions.
pub fn version_eq_exec(a: &Version, b: &Version) -> (r: bool)
    ensures
        r == (*a == *b),
{
    let r = a.epoch == b.epoch && a.major == b.major && a.minor == b.minor && a.micro == b.micro
        && opt_eq(&a.pre, &b.pre) && opt_eq(&a.post, &b.post) && opt_eq(&a.local, &b.local);
    r
}

/// Decides equality of two optional numbers.
fn opt_eq(x: &Option<u64>, y: &Option<u64>) -> (r: bool)
    ensures
        r == (*x == *y),
{
    match (x, y) {
        (Some(a), Some(b)) => *a == *b,
        (None, None) => true,
        _ => false,
    }
}

} // verus!
