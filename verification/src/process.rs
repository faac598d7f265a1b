use vstd::prelude::*;

verus! {

/// Resolved identity of the user that owns a process.
pub struct UserRecord {
    pub uid: u32,
    pub name: String,
}

/// Metadata of one process, looked up by pid from a snapshot of the
/// process table. A pid identifies a record only within one snapshot.
pub struct ProcessInfo {
    pub pid: u32,
    pub name: String,
    pub command: Vec<String>,
    pub owner: UserRecord,
    pub is_current_user: bool,
}

/// The pids of a sequence of process records, in the same order.
pub open spec fn pids_of(s: Seq<ProcessInfo>) -> Seq<u32> {
    s.map_values(|p: ProcessInfo| p.pid)
}

/// `a` is a subsequence of `b`: the elements of `a` occur in `b`
/// in the same relative order.
pub open spec fn is_subsequence(a: Seq<u32>, b: Seq<u32>) -> bool
    decreases b.len(),
{
    if a.len() == 0 {
        true
    } else if b.len() == 0 {
        false
    } else if a[0] == b[0] {
        is_subsequence(a.skip(1), b.skip(1))
    } else {
        is_subsequence(a, b.skip(1))
    }
}

/// Extending both sequences with the same element keeps the
/// subsequence relation.
pub proof fn lemma_subsequence_push_both(a: Seq<u32>, b: Seq<u32>, x: u32)
    requires
        is_subsequence(a, b),
    ensures
        is_subsequence(a.push(x), b.push(x)),
    decreases b.len(),
{
    if a.len() == 0 {
        lemma_singleton_subsequence(b, x);
        assert(a.push(x) =~= seq![x]);
    } else {
        assert(b.len() > 0);
        assert(a.push(x)[0] == a[0]);
        assert(b.push(x)[0] == b[0]);
        assert(b.push(x).skip(1) =~= b.skip(1).push(x));
        if a[0] == b[0] {
            lemma_subsequence_push_both(a.skip(1), b.skip(1), x);
            assert(a.push(x).skip(1) =~= a.skip(1).push(x));
        } else {
            lemma_subsequence_push_both(a, b.skip(1), x);
        }
    }
}

/// A one-element sequence is a subsequence of anything ending in
/// that element.
proof fn lemma_singleton_subsequence(b: Seq<u32>, x: u32)
    ensures
        is_subsequence(seq![x], b.push(x)),
    decreases b.len(),
{
    if b.len() == 0 {
        assert(b.push(x)[0] == x);
        assert(seq![x].skip(1) =~= Seq::<u32>::empty());
        assert(is_subsequence(seq![x].skip(1), b.push(x).skip(1)));
    } else {
        assert(b.push(x)[0] == b[0]);
        if x == b[0] {
            assert(seq![x].skip(1) =~= Seq::<u32>::empty());
            assert(is_subsequence(seq![x].skip(1), b.push(x).skip(1)));
        } else {
            lemma_singleton_subsequence(b.skip(1), x);
            assert(b.push(x).skip(1) =~= b.skip(1).push(x));
        }
    }
}

/// Extending the longer sequence alone keeps the subsequence relation.
pub proof fn lemma_subsequence_push_right(a: Seq<u32>, b: Seq<u32>, x: u32)
    requires
        is_subsequence(a, b),
    ensures
        is_subsequence(a, b.push(x)),
    decreases b.len(),
{
    if a.len() == 0 {
    } else {
        assert(b.len() > 0);
        assert(b.push(x)[0] == b[0]);
        assert(b.push(x).skip(1) =~= b.skip(1).push(x));
        if a[0] == b[0] {
            lemma_subsequence_push_right(a.skip(1), b.skip(1), x);
        } else {
            lemma_subsequence_push_right(a, b.skip(1), x);
        }
    }
}

#[verifier::external_type_specification]
#[verifier::external_body]
pub struct ExSystem(sysinfo::System);

/// Relies on sysinfo::System::new_all: a fresh snapshot of the full
/// process table, read at the moment of the call.
#[verifier::external_body]
fn process_snapshot() -> sysinfo::System {
    sysinfo::System::new_all()
}

/// Relies on sysinfo::System::process: the metadata of the process with
/// this pid in the snapshot, or None when no such process exists there.
/// Converts the executable name, the argv, and the owner's uid to plain
/// values; yields None as well when the process reports no owner.
#[verifier::external_body]
fn find_process(sys: &sysinfo::System, pid: u32) -> Option<(String, Vec<String>, u32)> {
    let p = sys.process(sysinfo::Pid::from_u32(pid))?;
    let uid: u32 = **p.user_id()?;
    let name = p.name().to_string_lossy().into_owned();
    let command = p.cmd().iter().map(|c| c.to_string_lossy().into_owned()).collect();
    Some((name, command, uid))
}

/// Relies on users::get_current_uid: the real uid of the invoking process.
#[verifier::external_body]
pub(crate) fn current_uid() -> u32 {
    users::get_current_uid()
}

/// Relies on users::get_user_by_uid: the name of the user account with
/// this uid, or None when the uid resolves to no account.
#[verifier::external_body]
fn lookup_user_name(uid: u32) -> Option<String> {
    users::get_user_by_uid(uid).map(|u| u.name().to_string_lossy().into_owned())
}

/// Resolve one pid against a fresh process-table snapshot. Yields None
/// when the process is gone by lookup time (it exited since it was
/// observed on a socket) or when its owner cannot be resolved; both are
/// recoverable conditions, not failures of the run.
pub fn resolve_pid(pid: u32, current_uid: u32) -> (r: Option<ProcessInfo>)
    ensures
        r matches Some(p) ==> p.pid == pid,
        r matches Some(p) ==> p.is_current_user == (p.owner.uid == current_uid),
{
    let sys = process_snapshot();
    match find_process(&sys, pid) {
        None => None,
        Some((name, command, uid)) => match lookup_user_name(uid) {
            None => None,
            Some(owner_name) => Some(
                ProcessInfo {
                    pid,
                    name,
                    command,
                    owner: UserRecord { uid, name: owner_name },
                    is_current_user: uid == current_uid,
                },
            ),
        },
    }
}

/// Resolve process metadata for each pid, in input order. A pid whose
/// process or owner is gone by lookup time is skipped, so the result
/// lists the resolved pids as a subsequence of the input. Whether a
/// record's owner is the invoking user is judged against `current_uid`,
/// obtained once per run by the caller.
pub fn get_process_info(pids: Vec<u32>, current_uid: u32) -> (r: Vec<ProcessInfo>)
    ensures
        is_subsequence(pids_of(r@), pids@),
        forall|k: int|
            0 <= k < r@.len() ==> (#[trigger] r@[k]).is_current_user == (r@[k].owner.uid
                == current_uid),
{
    let mut r: Vec<ProcessInfo> = Vec::new();
    let mut i: usize = 0;
    while i < pids.len()
        invariant
            i <= pids@.len(),
            is_subsequence(pids_of(r@), pids@.take(i as int)),
            forall|k: int|
                0 <= k < r@.len() ==> (#[trigger] r@[k]).is_current_user == (r@[k].owner.uid
                    == current_uid),
        decreases pids@.len() - i,
    {
        let pid = pids[i];
        proof {
            assert(pids@.take(i + 1) =~= pids@.take(i as int).push(pids@[i as int]));
        }
        match resolve_pid(pid, current_uid) {
            Some(info) => {
                proof {
                    lemma_subsequence_push_both(pids_of(r@), pids@.take(i as int), pid);
                    assert(pids_of(r@.push(info)) =~= pids_of(r@).push(info.pid));
                }
                r.push(info);
            },
            None => {
                proof {
                    lemma_subsequence_push_right(pids_of(r@), pids@.take(i as int), pids@[i as int]);
                }
            },
        }
        i += 1;
    }
    proof {
        assert(pids@.take(pids@.len() as int) =~= pids@);
    }
    r
}

} // verus!
