//! Workload profiles for the stress driver: the operation mix, drawn by
//! rolls of `0..100`, and the classification of each call's result into an
//! operation record outcome.

use vstd::prelude::*;
use crate::client::GetResult;
use crate::errors::TranDbError;
use crate::history::{OpOutcome, OutcomeModel};

verus! {

/// An operation the worker can issue.
#[derive(Debug, Clone, Copy, PartialEq, Eq, Structural)]
pub enum Op {
    Get,
    Put,
    Delete,
}

/// Workload profiles controlling the mix of operations the worker issues:
/// read-heavy is 80/20/0 (GET/PUT/DELETE), balanced 50/45/5, write-heavy
/// 20/75/5, and put-only 0/100/0.
#[derive(Debug, Clone, Copy, PartialEq, Eq, Structural)]
pub enum WorkloadProfile {
    ReadHeavy,
    Balanced,
    WriteHeavy,
    PutOnly,
}

/// Which operation a roll in `0..100` selects under each profile.
pub open spec fn spec_op_for_roll(profile: WorkloadProfile, roll: u32) -> Op {
    match profile {
        WorkloadProfile::ReadHeavy => if roll < 80 {
            Op::Get
        } else {
            Op::Put
        },
        WorkloadProfile::Balanced => if roll < 50 {
            Op::Get
        } else if roll < 95 {
            Op::Put
        } else {
            Op::Delete
        },
        WorkloadProfile::WriteHeavy => if roll < 20 {
            Op::Get
        } else if roll < 95 {
            Op::Put
        } else {
            Op::Delete
        },
        WorkloadProfile::PutOnly => Op::Put,
    }
}

/// The canonical CLI name of each profile.
pub open spec fn spec_profile_name(profile: WorkloadProfile) -> Seq<char> {
    match profile {
        WorkloadProfile::ReadHeavy => "read-heavy"@,
        WorkloadProfile::Balanced => "balanced"@,
        WorkloadProfile::WriteHeavy => "write-heavy"@,
        WorkloadProfile::PutOnly => "put-only"@,
    }
}

/// The profile a CLI name denotes, if any.
pub open spec fn spec_profile_from_name(s: Seq<char>) -> Option<WorkloadProfile> {
    if s == "read-heavy"@ {
        Some(WorkloadProfile::ReadHeavy)
    } else if s == "balanced"@ {
        Some(WorkloadProfile::Balanced)
    } else if s == "write-heavy"@ {
        Some(WorkloadProfile::WriteHeavy)
    } else if s == "put-only"@ {
        Some(WorkloadProfile::PutOnly)
    } else {
        None
    }
}

/// Whether two string slices hold the same characters.
fn str_view_eq(a: &str, b: &str) -> (r: bool)
    ensures
        r == (a@ == b@),
{
    let sa = String::from_str(a);
    let sb = String::from_str(b);
    sa.eq(&sb)
}

/// Relies on `rand::random`: a value drawn from the thread-local generator.
/// Nothing is promised of it; callers bound what they need themselves.
pub assume_specification<T>[ rand::random::<T> ]() -> (r: T)
    where
        rand::distributions::Standard: rand::distributions::Distribution<T>,
;

impl WorkloadProfile {
    /// Map a roll in `0..100` to an operation according to the profile's
    /// percentages.
    pub fn op_for_roll(&self, roll: u32) -> (r: Op)
        ensures
            r == spec_op_for_roll(*self, roll),
    {
        match self {
            WorkloadProfile::ReadHeavy => {
                if roll < 80 {
                    Op::Get
                } else {
                    Op::Put
                }
            },
            WorkloadProfile::Balanced => {
                if roll < 50 {
                    Op::Get
                } else if roll < 95 {
                    Op::Put
                } else {
                    Op::Delete
                }
            },
            WorkloadProfile::WriteHeavy => {
                if roll < 20 {
                    Op::Get
                } else if roll < 95 {
                    Op::Put
                } else {
                    Op::Delete
                }
            },
            WorkloadProfile::PutOnly => Op::Put,
        }
    }

    /// Draw a random operation: some roll below 100 decides it.
    pub fn sample(&self) -> (r: Op)
        ensures
            exists|roll: u32| roll < 100 && r == spec_op_for_roll(*self, roll),
    {
        let roll = rand::random::<u32>() % 100;
        let r = self.op_for_roll(roll);
        proof {
            assert(roll < 100 && r == spec_op_for_roll(*self, roll));
        }
        r
    }

    /// Parse a workload profile from its CLI name.
    pub fn from_name(s: &str) -> (r: Option<WorkloadProfile>)
        ensures
            r == spec_profile_from_name(s@),
    {
        if str_view_eq(s, "read-heavy") {
            Some(WorkloadProfile::ReadHeavy)
        } else if str_view_eq(s, "balanced") {
            Some(WorkloadProfile::Balanced)
        } else if str_view_eq(s, "write-heavy") {
            Some(WorkloadProfile::WriteHeavy)
        } else if str_view_eq(s, "put-only") {
            Some(WorkloadProfile::PutOnly)
        } else {
            None
        }
    }

    /// The canonical CLI name for this profile.
    pub fn as_name(&self) -> (r: &'static str)
        ensures
            r@ == spec_profile_name(*self),
    {
        match self {
            WorkloadProfile::ReadHeavy => "read-heavy",
            WorkloadProfile::Balanced => "balanced",
            WorkloadProfile::WriteHeavy => "write-heavy",
            WorkloadProfile::PutOnly => "put-only",
        }
    }
}

/// Generate a random byte payload for `PUT` operations: between 8 and 1024
/// bytes.
pub fn generate_value() -> (r: Vec<u8>)
    ensures
        8 <= r@.len() <= 1024,
{
    let len: usize = 8 + (rand::random::<u32>() % 1017) as usize;
    let mut out: Vec<u8> = Vec::new();
    let mut i: usize = 0;
    while i < len
        invariant
            0 <= i <= len,
            len <= 1025,
            out@.len() == i,
        decreases len - i,
    {
        out.push(rand::random::<u8>());
        i = i + 1;
    }
    out
}

/// The outcome a `GET` call's result is recorded as: the value and version
/// on success, `NotFound` for a missing key, `Error` for everything else.
pub fn outcome_of_get(r: Result<GetResult, TranDbError>) -> (o: OpOutcome)
    ensures
        match r {
            Ok(g) => o@ == (OutcomeModel::GetOk { version: g.version as int, value: g.value@ }),
            Err(e) => if e is KeyNotFound {
                o@ == OutcomeModel::NotFound
            } else {
                o@ == OutcomeModel::Error
            },
        },
{
    match r {
        Ok(g) => OpOutcome::GetOk { version: g.version, value: g.value },
        Err(TranDbError::KeyNotFound(_)) => OpOutcome::NotFound,
        Err(_) => OpOutcome::Error,
    }
}

/// The outcome a `PUT` call's result is recorded as; `value` is what the
/// client sent.
pub fn outcome_of_put(r: Result<u64, TranDbError>, value: Vec<u8>) -> (o: OpOutcome)
    ensures
        match r {
            Ok(v) => o@ == (OutcomeModel::PutOk { version: v as int, value: value@ }),
            Err(e) => o@ == OutcomeModel::Error,
        },
{
    match r {
        Ok(version) => OpOutcome::PutOk { version, value },
        Err(_) => OpOutcome::Error,
    }
}

/// The outcome a `DELETE` call's result is recorded as: a written tombstone
/// is a `DeleteOk`, a `204` no-op is recorded as `NotFound`.
pub fn outcome_of_delete(r: Result<Option<u64>, TranDbError>) -> (o: OpOutcome)
    ensures
        match r {
            Ok(Some(v)) => o@ == (OutcomeModel::DeleteOk { version: v as int }),
            Ok(None) => o@ == OutcomeModel::NotFound,
            Err(e) => o@ == OutcomeModel::Error,
        },
{
    match r {
        Ok(Some(version)) => OpOutcome::DeleteOk { version },
        Ok(None) => OpOutcome::NotFound,
        Err(_) => OpOutcome::Error,
    }
}

} // verus!
