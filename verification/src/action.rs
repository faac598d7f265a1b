use vstd::prelude::*;

use crate::port::PortInfo;
use crate::process::ProcessInfo;

verus! {

/// Some record in `s` carries this pid.
pub open spec fn contains_pid(s: Seq<ProcessInfo>, pid: u32) -> bool {
    exists|j: int| 0 <= j < s.len() && s[j].pid == pid
}

/// The distinct process records across a port sequence: each port
/// contributes its first resolved process (a port with none contributes
/// nothing), a pid already present is dropped, and first-seen order is
/// kept.
pub open spec fn dedupe_spec(ports: Seq<PortInfo>) -> Seq<ProcessInfo>
    decreases ports.len(),
{
    if ports.len() == 0 {
        Seq::empty()
    } else {
        let prev = dedupe_spec(ports.drop_last());
        let last = ports.last();
        if last.process_info@.len() == 0 {
            prev
        } else if contains_pid(prev, last.process_info@[0].pid) {
            prev
        } else {
            prev.push(last.process_info@[0])
        }
    }
}

fn contains_pid_exec(procs: &Vec<ProcessInfo>, pid: u32) -> (r: bool)
    ensures
        r == contains_pid(procs@, pid),
{
    let mut j: usize = 0;
    let mut found = false;
    while j < procs.len()
        invariant
            j <= procs@.len(),
            found == exists|k: int| 0 <= k < j && procs@[k].pid == pid,
        decreases procs@.len() - j,
    {
        if procs[j].pid == pid {
            found = true;
        }
        j += 1;
    }
    found
}

/// Deduplicate the processes behind a port sequence: one record per
/// pid, first occurrence wins, first-seen order preserved. Only each
/// port's first resolved process is considered; a port whose process
/// list is empty is passed over. (A socket with several owning
/// processes thus contributes only the first: a deliberate, known
/// restriction.)
pub fn dedupe_processes(ports: Vec<PortInfo>) -> (r: Vec<ProcessInfo>)
    ensures
        r@ == dedupe_spec(ports@),
{
    let ghost orig: Seq<PortInfo> = ports@;
    let mut rest = ports;
    let mut r: Vec<ProcessInfo> = Vec::new();
    while rest.len() > 0
        invariant
            rest@.len() <= orig.len(),
            rest@ == orig.skip(orig.len() - rest@.len()),
            r@ == dedupe_spec(orig.take(orig.len() - rest@.len())),
        decreases rest@.len(),
    {
        let ghost i = orig.len() - rest@.len();
        let mut x = rest.remove(0);
        proof {
            assert(x == orig[i]);
            assert(orig.skip(i).remove(0) =~= orig.skip(i + 1));
            assert(orig.take(i + 1).drop_last() =~= orig.take(i));
            assert(orig.take(i + 1).last() == orig[i]);
        }
        if x.process_info.len() > 0 {
            let first = x.process_info.remove(0);
            if !contains_pid_exec(&r, first.pid) {
                r.push(first);
            }
        }
    }
    proof {
        assert(orig.take(orig.len() as int) =~= orig);
    }
    r
}

/// No two records in the deduplicated list share a pid.
pub proof fn lemma_dedupe_no_duplicate_pids(ports: Seq<PortInfo>)
    ensures
        forall|i: int, j: int|
            0 <= i < j < dedupe_spec(ports).len() ==> dedupe_spec(ports)[i].pid != dedupe_spec(
                ports,
            )[j].pid,
    decreases ports.len(),
{
    if ports.len() == 0 {
    } else {
        lemma_dedupe_no_duplicate_pids(ports.drop_last());
        let prev = dedupe_spec(ports.drop_last());
        let out = dedupe_spec(ports);
        let last = ports.last();
        if last.process_info@.len() == 0 || contains_pid(prev, last.process_info@[0].pid) {
        } else {
            assert forall|i: int, j: int| 0 <= i < j < out.len() implies out[i].pid != out[j].pid by {
                if j < prev.len() {
                } else {
                    assert(out[j] == last.process_info@[0]);
                    assert(out[i] == prev[i]);
                    assert(!contains_pid(prev, last.process_info@[0].pid));
                }
            }
        }
    }
}

/// Every deduplicated record is the first resolved process of one of
/// the input ports.
pub proof fn lemma_dedupe_membership(ports: Seq<PortInfo>, k: int)
    requires
        0 <= k < dedupe_spec(ports).len(),
    ensures
        exists|i: int|
            0 <= i < ports.len() && (#[trigger] ports[i]).process_info@.len() > 0 && dedupe_spec(
                ports,
            )[k] == ports[i].process_info@[0],
    decreases ports.len(),
{
    let out = dedupe_spec(ports);
    let prev = dedupe_spec(ports.drop_last());
    let last = ports.last();
    if last.process_info@.len() > 0 && !contains_pid(prev, last.process_info@[0].pid) && k
        == prev.len() {
        assert(out[k] == ports[ports.len() - 1].process_info@[0]);
    } else {
        assert(out[k] == prev[k]);
        lemma_dedupe_membership(ports.drop_last(), k);
        let i = choose|i: int|
            0 <= i < ports.drop_last().len() && (#[trigger] ports.drop_last()[i]).process_info@.len()
                > 0 && prev[k] == ports.drop_last()[i].process_info@[0];
        assert(ports[i] == ports.drop_last()[i]);
        assert(ports[i].process_info@.len() > 0 && out[k] == ports[i].process_info@[0]);
    }
}

/// Error of the safety gate: the command would touch several processes
/// without an explicit override.
pub struct BulkCommandBlocked;

impl BulkCommandBlocked {
    /// Text for the user when a bulk action is stopped.
    pub fn message(&self) -> String {
        "This would run the provided command on multiple processes. If you are absolutely sure you want to do this, use the --force option.".to_owned()
    }
}

/// Safety gate before running a command across resolved processes: a
/// bulk action is blocked exactly when more than one process is
/// targeted and `force` is not set. A single target always passes.
pub fn run_command_gate(processes: &Vec<ProcessInfo>, force: bool) -> (r: Result<
    (),
    BulkCommandBlocked,
>)
    ensures
        r is Err <==> processes@.len() > 1 && !force,
{
    if processes.len() > 1 && !force {
        Err(BulkCommandBlocked)
    } else {
        Ok(())
    }
}

/// The placeholder token: a template word equal to it is replaced by
/// the pid.
pub open spec fn placeholder() -> Seq<char> {
    seq!['{', '}']
}

/// The decimal digits of `n`, most significant first.
pub open spec fn dec_digits(n: nat) -> Seq<char>
    decreases n,
{
    if n < 10 {
        seq![digit_char(n)]
    } else {
        dec_digits(n / 10).push(digit_char(n % 10))
    }
}

/// The character for one decimal digit.
pub open spec fn digit_char(d: nat) -> char {
    if d == 0 {
        '0'
    } else if d == 1 {
        '1'
    } else if d == 2 {
        '2'
    } else if d == 3 {
        '3'
    } else if d == 4 {
        '4'
    } else if d == 5 {
        '5'
    } else if d == 6 {
        '6'
    } else if d == 7 {
        '7'
    } else if d == 8 {
        '8'
    } else {
        '9'
    }
}

/// Relies on u32's Display implementation: the decimal digits of the
/// value, most significant first, no sign and no padding.
#[verifier::external_body]
fn pid_to_string(pid: u32) -> (r: String)
    ensures
        r@ == dec_digits(pid as nat),
{
    pid.to_string()
}

/// Build the argument vector for one process from the user's template:
/// when some template word is the placeholder token, every occurrence
/// of the token is replaced by the pid's decimal digits; when none is,
/// the digits are appended as one extra final argument. All other words
/// pass through unchanged.
pub fn substitute_template(template: &Vec<String>, pid: u32) -> (r: Vec<String>)
    ensures
        (exists|k: int| 0 <= k < template@.len() && (#[trigger] template@[k])@ == placeholder())
            ==> r@.len() == template@.len(),
        !(exists|k: int| 0 <= k < template@.len() && (#[trigger] template@[k])@ == placeholder())
            ==> r@.len() == template@.len() + 1 && r@[template@.len() as int]@ == dec_digits(
            pid as nat,
        ),
        forall|k: int|
            0 <= k < template@.len() ==> (#[trigger] r@[k])@ == (if template@[k]@ == placeholder() {
                dec_digits(pid as nat)
            } else {
                template@[k]@
            }),
{
    let token: String = "{}".to_owned();
    proof {
        reveal_strlit("{}");
        assert(token@ =~= placeholder());
    }
    let mut r: Vec<String> = Vec::new();
    let mut found = false;
    let mut i: usize = 0;
    while i < template.len()
        invariant
            i <= template@.len(),
            r@.len() == i,
            token@ == placeholder(),
            found == exists|k: int|
                0 <= k < i && (#[trigger] template@[k])@ == placeholder(),
            forall|k: int|
                0 <= k < i ==> (#[trigger] r@[k])@ == (if template@[k]@ == placeholder() {
                    dec_digits(pid as nat)
                } else {
                    template@[k]@
                }),
        decreases template@.len() - i,
    {
        let s = &template[i];
        if *s == token {
            found = true;
            r.push(pid_to_string(pid));
        } else {
            r.push(s.clone());
        }
        i += 1;
    }
    if !found {
        r.push(pid_to_string(pid));
    }
    r
}

} // verus!
