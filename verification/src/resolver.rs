//! Versions of packages: among the versions that a package offers, the
//! newest that a requirement admits.
//!
//! What a version and a requirement mean is decided by the `semver` crate,
//! which is asked about texts; the choice is made here, on its answers.

use vstd::prelude::*;
use vstd::string::*;
use crate::errors::InstallError;
use crate::versions::{
    newer, requirement_error, satisfies, spec_newer, spec_requirement_error, spec_satisfies,
    spec_strip_leading, strip_leading,
};

verus! {

/// One version that a package offers.
#[derive(Debug)]
pub struct VersionEntry {
    /// The semantic version, with or without a `v` in front.
    pub version: String,
    /// The tag of the repository that holds this version.
    pub tag: String,
    /// The SHA-256 checksum, where one is known.
    pub checksum: Option<String>,
}

/// What a registry holds of a package.
#[derive(Debug)]
pub struct PackageManifest {
    pub name: String,
    /// Where the repository of the package is cloned from.
    pub repository: String,
    /// The versions on offer, in the order of the registry.
    pub versions: Vec<VersionEntry>,
    pub description: Option<String>,
}

/// A package of which one version was chosen.
#[derive(Debug)]
pub struct ResolvedPackage {
    pub name: String,
    pub version: String,
    pub tag: String,
    pub clone_url: String,
}

/// The version texts of a list of entries, in order.
pub open spec fn spec_version_texts(entries: Seq<VersionEntry>) -> Seq<Seq<char>> {
    Seq::new(entries.len(), |i: int| entries[i].version@)
}

/// The version that an entry is compared by: its text without the `v`s in
/// front.
pub open spec fn spec_bare(version: Seq<char>) -> Seq<char> {
    spec_strip_leading(version, 'v')
}

/// Which entry is held once a further one, `candidate`, has been looked
/// at: the candidate where it is admitted and either nothing was held or it
/// is newer than what was held; otherwise what was held.
pub open spec fn spec_keep_better(best: Option<usize>, candidate: usize, admitted: bool, newer: bool) -> Option<
    usize,
> {
    if admitted && (best is None || newer) {
        Some(candidate)
    } else {
        best
    }
}

/// The index of the version that is chosen among the first `n`: going
/// through them in order, an admitted version is taken where none is held yet
/// or it is newer than the one held. Of several versions that are equally
/// new, the first stays.
pub open spec fn spec_best(constraint: Seq<char>, versions: Seq<Seq<char>>, n: nat) -> Option<int>
    decreases n,
{
    if n == 0 {
        None
    } else {
        let best = spec_best(constraint, versions, (n - 1) as nat);
        let version = spec_bare(versions[n - 1]);
        if spec_satisfies(constraint, version) && (best is None || spec_newer(
            version,
            spec_bare(versions[best->Some_0]),
        )) {
            Some(n - 1)
        } else {
            best
        }
    }
}

/// What resolving comes to as `r`, given the message with which the
/// requirement was refused, if it was, and the entry that was chosen, if one
/// was: a refused requirement is an invalid configuration that quotes the
/// requirement and the message; without a chosen entry there is no
/// compatible version; otherwise the package is resolved to the entry.
pub open spec fn spec_concluded(
    manifest: &PackageManifest,
    constraint: Seq<char>,
    error: Option<Seq<char>>,
    best: Option<VersionEntry>,
    r: Result<ResolvedPackage, InstallError>,
) -> bool {
    match error {
        Some(message) => r matches Err(InstallError::InvalidConfig { path, reason }) && path@
            == Seq::<char>::empty() && reason@ == "Invalid version constraint '"@ + constraint
            + "': "@ + message,
        None => match best {
            None => r matches Err(InstallError::NoCompatibleVersion { package, constraint: c })
                && package@ == manifest.name@ && c@ == constraint,
            Some(entry) => r matches Ok(p) && p.name@ == manifest.name@ && p.version@
                == entry.version@ && p.tag@ == entry.tag@ && p.clone_url@ == manifest.repository@,
        },
    }
}

/// The entry at an index of the list, where there is one.
pub open spec fn spec_entry(entries: Seq<VersionEntry>, index: Option<int>) -> Option<
    VersionEntry,
> {
    match index {
        Some(i) => Some(entries[i]),
        None => None,
    }
}

/// The entry that a borrowed one stands for.
pub open spec fn spec_lent(entry: Option<&VersionEntry>) -> Option<VersionEntry> {
    match entry {
        Some(e) => Some(*e),
        None => None,
    }
}

/// Chooses the version of a package to install.
pub struct PackageResolver;

impl PackageResolver {
    /// Which entry is held once the entry at `candidate` has been looked at,
    /// of which it is known whether the requirement admits it and whether it
    /// is newer than the entry held.
    pub fn keep_better(best: Option<usize>, candidate: usize, admitted: bool, newer: bool) -> (r: Option<
        usize,
    >)
        ensures
            r == spec_keep_better(best, candidate, admitted, newer),
    {
        if admitted && (best.is_none() || newer) {
            Some(candidate)
        } else {
            best
        }
    }

    /// What resolving comes to, given the message with which the
    /// requirement was refused, if it was, and the entry that was chosen, if
    /// one was.
    pub fn conclude(
        manifest: &PackageManifest,
        constraint: &str,
        error: Option<String>,
        best: Option<&VersionEntry>,
    ) -> (r: Result<ResolvedPackage, InstallError>)
        ensures
            spec_concluded(manifest, constraint@, error.deep_view(), spec_lent(best), r),
    {
        match error {
            Some(message) => {
                let reason = String::from_str("Invalid version constraint '").concat(
                    constraint,
                ).concat("': ").concat(message.as_str());
                let path = String::from_str("");
                proof {
                    reveal_strlit("");
                    assert(path@ =~= Seq::<char>::empty());
                }
                Err(InstallError::InvalidConfig { path, reason })
            },
            None => match best {
                None => Err(
                    InstallError::NoCompatibleVersion {
                        package: manifest.name.clone(),
                        constraint: constraint.to_owned(),
                    },
                ),
                Some(entry) => Ok(
                    ResolvedPackage {
                        name: manifest.name.clone(),
                        version: entry.version.clone(),
                        tag: entry.tag.clone(),
                        clone_url: manifest.repository.clone(),
                    },
                ),
            },
        }
    }

    /// Finds the newest version of the package that the requirement admits.
    ///
    /// A text that is no requirement is an invalid configuration. An entry
    /// takes part where its version, read without the `v`s in front, is a
    /// version that the requirement admits; of these the newest is chosen,
    /// and of several that are equally new the first. Where no entry takes
    /// part there is no compatible version.
    pub fn resolve(manifest: &PackageManifest, constraint: &str) -> (r: Result<
        ResolvedPackage,
        InstallError,
    >)
        ensures
            spec_concluded(
                manifest,
                constraint@,
                spec_requirement_error(constraint@),
                if spec_requirement_error(constraint@) is Some {
                    None
                } else {
                    spec_entry(
                        manifest.versions@,
                        spec_best(
                            constraint@,
                            spec_version_texts(manifest.versions@),
                            manifest.versions@.len(),
                        ),
                    )
                },
                r,
            ),
    {
        let error = requirement_error(constraint);
        if error.is_some() {
            return PackageResolver::conclude(manifest, constraint, error, None);
        }
        let ghost texts = spec_version_texts(manifest.versions@);
        let mut best: Option<usize> = None;
        let mut i: usize = 0;
        while i < manifest.versions.len()
            invariant
                i <= manifest.versions@.len(),
                texts == spec_version_texts(manifest.versions@),
                match best {
                    Some(b) => b < i && spec_best(constraint@, texts, i as nat) == Some(b as int),
                    None => spec_best(constraint@, texts, i as nat) is None,
                },
            decreases manifest.versions@.len() - i,
        {
            let version = strip_leading(manifest.versions[i].version.as_str(), 'v');
            let admitted = satisfies(constraint, version);
            let is_newer = match best {
                Some(b) => admitted && newer(
                    version,
                    strip_leading(manifest.versions[b].version.as_str(), 'v'),
                ),
                None => false,
            };
            best = PackageResolver::keep_better(best, i, admitted, is_newer);
            i = i + 1;
        }
        match best {
            Some(b) => PackageResolver::conclude(
                manifest,
                constraint,
                error,
                Some(&manifest.versions[b]),
            ),
            None => PackageResolver::conclude(manifest, constraint, error, None),
        }
    }
}

/// The version that is chosen is one that the requirement admits, and no
/// admitted version that comes after it in the list is newer. None is chosen
/// exactly where the requirement admits none.
pub proof fn lemma_best_is_admitted_and_unbeaten(
    constraint: Seq<char>,
    versions: Seq<Seq<char>>,
    n: nat,
)
    requires
        n <= versions.len(),
    ensures
        match spec_best(constraint, versions, n) {
            Some(i) => {
                &&& 0 <= i < n
                &&& spec_satisfies(constraint, spec_bare(versions[i]))
                &&& forall|j: int|
                    i < j < n && spec_satisfies(constraint, spec_bare(#[trigger] versions[j]))
                        ==> !spec_newer(spec_bare(versions[j]), spec_bare(versions[i]))
            },
            None => forall|j: int|
                0 <= j < n ==> !spec_satisfies(constraint, spec_bare(#[trigger] versions[j])),
        },
    decreases n,
{
    if n > 0 {
        lemma_best_is_admitted_and_unbeaten(constraint, versions, (n - 1) as nat);
    }
}

} // verus!
