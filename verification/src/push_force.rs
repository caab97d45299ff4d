//! How a push may move the remote: the git flag and the matching fields of
//! an artifact push to a sync remote.
use vstd::prelude::*;

use crate::text::{append_str, string_from_chars};

verus! {

/// How `git push` may move the remote branch. `WithLease` refuses when the
/// remote moved since the last fetch.
#[derive(Debug, Clone, Copy, PartialEq, Eq, Structural)]
pub enum PushForce {
    No,
    WithLease,
    Unconditional,
}

impl PushForce {
    /// The mode for the `--force-with-lease` and `--force` flags; the lease
    /// wins when both are given.
    pub fn from_flags(force_with_lease: bool, force: bool) -> (r: PushForce)
        ensures
            r == (if force_with_lease {
                PushForce::WithLease
            } else if force {
                PushForce::Unconditional
            } else {
                PushForce::No
            }),
    {
        if force_with_lease {
            PushForce::WithLease
        } else if force {
            PushForce::Unconditional
        } else {
            PushForce::No
        }
    }

    pub open spec fn arg(self) -> Option<Seq<char>> {
        match self {
            PushForce::No => None,
            PushForce::WithLease => Some("--force-with-lease"@),
            PushForce::Unconditional => Some("--force"@),
        }
    }

    /// The `git push` flag of this mode.
    pub fn git_arg(self) -> (r: Option<&'static str>)
        ensures
            match r {
                Some(s) => self.arg() == Some(s@),
                None => self.arg() is None,
            },
    {
        match self {
            PushForce::No => None,
            PushForce::WithLease => Some("--force-with-lease"),
            PushForce::Unconditional => Some("--force"),
        }
    }

    /// Whether this mode forces at all.
    pub fn is_force(self) -> (b: bool)
        ensures
            b == (self != PushForce::No),
    {
        !matches!(self, PushForce::No)
    }

    /// Whether the force is guarded by a lease.
    pub fn wants_lease(self) -> (b: bool)
        ensures
            b == (self == PushForce::WithLease),
    {
        matches!(self, PushForce::WithLease)
    }
}

/// The force fields of an artifact push body: `force: true` alone is an
/// unconditional replace; with `expectedArtifactHash` it is a
/// compare-and-swap. A lease with no known remote artifact sends neither.
#[derive(Debug)]
pub struct ArtifactForceFields {
    pub force: bool,
    pub expected_artifact_hash: Option<String>,
}

/// The force fields for a push mode and the lease hash fetched for it.
pub fn artifact_force_fields(force: PushForce, lease: Option<&str>) -> (f: ArtifactForceFields)
    ensures
        f.force == (force == PushForce::Unconditional || (force == PushForce::WithLease && lease is Some)),
        match f.expected_artifact_hash {
            Some(h) => force == PushForce::WithLease && lease is Some && h@ == lease->0@,
            None => !(force == PushForce::WithLease && lease is Some),
        },
{
    match force {
        PushForce::No => ArtifactForceFields { force: false, expected_artifact_hash: None },
        PushForce::Unconditional => ArtifactForceFields { force: true, expected_artifact_hash: None },
        PushForce::WithLease => match lease {
            Some(h) => {
                let mut v: Vec<char> = Vec::new();
                append_str(&mut v, h);
                ArtifactForceFields { force: true, expected_artifact_hash: Some(string_from_chars(&v)) }
            },
            None => ArtifactForceFields { force: false, expected_artifact_hash: None },
        },
    }
}

pub open spec fn lease_text(bundle_id: Seq<char>, current: Option<Seq<char>>) -> Seq<char> {
    bundle_id + ": remote artifact changed since fetch"@ + (match current {
        Some(h) => " (remote artifact is now "@ + h + ")"@,
        None => ""@,
    }) + ". Run `knit sync pull --bundles` to see the new state, then force-push again."@
}

/// The failure message for a refused force lease.
pub fn lease_mismatch_message(bundle_id: &str, current: Option<&str>) -> (out: String)
    ensures
        out@ == lease_text(bundle_id@, match current {
            Some(h) => Some(h@),
            None => None,
        }),
{
    let mut v: Vec<char> = Vec::new();
    append_str(&mut v, bundle_id);
    append_str(&mut v, ": remote artifact changed since fetch");
    match current {
        Some(h) => {
            append_str(&mut v, " (remote artifact is now ");
            append_str(&mut v, h);
            append_str(&mut v, ")");
        },
        None => {
            proof {
                assert(v@ + ""@ =~= v@) by {
                    reveal_strlit("");
                }
            }
        },
    }
    append_str(&mut v, ". Run `knit sync pull --bundles` to see the new state, then force-push again.");
    string_from_chars(&v)
}

} // verus!
