//! Candidate selection for a package dependency resolver.
//!
//! For a single package, a raw catalog of published artifact records (a
//! registry snapshot plus an optional local override source) is folded into a
//! [`version_map::VersionMap`]: an ordered table that tells the resolver, for
//! each known version, which concrete artifact (prebuilt binary or source
//! archive) would be used if that version were chosen, together with the
//! integrity digests of every file that contributed to the version.

pub mod candidate;
pub mod laws;
pub mod overrides;
pub mod table;
pub mod version;
pub mod version_map;
