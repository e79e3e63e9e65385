//! Stable process identities and the checks made when a process is opened by identity.
//!
//! Windows hands out process identifiers again. Whatever outlives one enumeration therefore
//! carries the identifier together with the moment of creation, and a process opened later is
//! used only when the pair still matches.
use vstd::prelude::*;

use crate::table::Key;
use crate::win32::ERROR_INVALID_PARAMETER;

verus! {

/// Identity of one process instance. A creation time of zero stands for "not known".
#[derive(Clone, Copy, Debug, PartialEq, Eq, Structural, Hash)]
pub struct ProcIdentity {
    pub pid: u32,
    pub creation_time_100ns: u64,
}

impl Default for ProcIdentity {
    fn default() -> (identity: Self)
        ensures
            identity.pid == 0,
            identity.creation_time_100ns == 0,
    {
        ProcIdentity { pid: 0, creation_time_100ns: 0 }
    }
}

impl Key for ProcIdentity {
    fn same(&self, other: &Self) -> (same: bool) {
        *self == *other
    }
}

impl ProcIdentity {
    pub open spec fn verified(self) -> bool {
        self.creation_time_100ns != 0
    }

    pub fn new(pid: u32, creation_time_100ns: u64) -> (identity: Self)
        ensures
            identity == (ProcIdentity { pid, creation_time_100ns }),
    {
        ProcIdentity { pid, creation_time_100ns }
    }

    /// An identity whose creation time is not known.
    pub fn pid_only(pid: u32) -> (identity: Self)
        ensures
            identity == (ProcIdentity { pid, creation_time_100ns: 0 }),
            !identity.verified(),
    {
        Self::new(pid, 0)
    }

    /// Whether the creation time is known, so that the identity names one instance.
    pub fn is_verified(self) -> (verified: bool)
        ensures
            verified == self.verified(),
    {
        self.creation_time_100ns != 0
    }
}

/// What is checked before a process is opened by identity: only a verified one may be opened.
pub fn check_open_request(identity: ProcIdentity) -> (outcome: Result<(), u32>)
    ensures
        outcome == if identity.verified() {
            Ok::<(), u32>(())
        } else {
            Err(ERROR_INVALID_PARAMETER)
        },
{
    if !identity.is_verified() {
        return Err(ERROR_INVALID_PARAMETER);
    }
    Ok(())
}

/// What is checked of an opened process, given what the query of its creation time returned:
/// the process is usable exactly when it is the instance that `identity` names.
pub fn check_opened_process(identity: ProcIdentity, creation_time: Result<u64, u32>) -> (outcome:
    Result<(), u32>)
    ensures
        outcome == match creation_time {
            Err(code) => Err::<(), u32>(code),
            Ok(time) => if time == identity.creation_time_100ns {
                Ok(())
            } else {
                Err(ERROR_INVALID_PARAMETER)
            },
        },
{
    match creation_time {
        Err(code) => Err(code),
        Ok(time) => {
            if time != identity.creation_time_100ns {
                Err(ERROR_INVALID_PARAMETER)
            } else {
                Ok(())
            }
        },
    }
}

/// Two instances that were given one identifier at different times never compare equal, and a
/// process opened by one of the identities is refused when it is the other instance.
pub proof fn reused_pid_is_told_apart(first: ProcIdentity, second: ProcIdentity)
    requires
        first.pid == second.pid,
        first.creation_time_100ns != second.creation_time_100ns,
    ensures
        first != second,
        forall|outcome: Result<(), u32>|
            #[trigger] call_ensures(
                check_opened_process,
                (first, Ok::<u64, u32>(second.creation_time_100ns)),
                outcome,
            ) ==> outcome is Err,
{
}

/// A process that was opened by the identifier of an identity is accepted exactly when it is the
/// instance that the identity names. Without a verified identity nothing is opened.
pub proof fn only_the_named_process_is_used(identity: ProcIdentity, opened: ProcIdentity)
    requires
        opened.pid == identity.pid,
    ensures
        forall|outcome: Result<(), u32>|
            #[trigger] call_ensures(check_open_request, (identity,), outcome) ==> (outcome is Ok
                <==> identity.verified()),
        forall|outcome: Result<(), u32>|
            #[trigger] call_ensures(
                check_opened_process,
                (identity, Ok::<u64, u32>(opened.creation_time_100ns)),
                outcome,
            ) ==> (outcome is Ok <==> opened == identity),
{
}

} // verus!
