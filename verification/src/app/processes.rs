//! Which other processes of the program are ended.

use vstd::prelude::*;

use crate::text::{number_value, NumberError, parse_number, same, trim, trimmed};

verus! {

/// Whether a process is another one of the program: it runs the same file or has
/// its name. The process itself and the first process of the system never are.
pub open spec fn is_other(pid: int, current: int, same_binary: bool, named: bool) -> bool {
    pid > 1 && pid != current && (same_binary || named)
}

/// Whether a process is ended.
pub fn should_terminate_process(
    pid: u32,
    current_pid: u32,
    is_same_binary: bool,
    is_neutron_comm: bool,
) -> (r: bool)
    ensures
        r == is_other(pid as int, current_pid as int, is_same_binary, is_neutron_comm),
{
    pid > 1 && pid != current_pid && (is_same_binary || is_neutron_comm)
}

/// What is known of an entry of the list of processes: the name of the entry,
/// whether it runs the same file, and the name of the command where it can be
/// read.
#[derive(Debug)]
pub struct ProcessEntry {
    pub entry: String,
    pub is_same_binary: bool,
    pub comm: Option<String>,
}

/// The process that an entry describes, where it is ended.
pub open spec fn ended(e: ProcessEntry, current: int) -> Option<nat> {
    match number_value(e.entry@, u32::MAX as nat) {
        Ok(pid) => if is_other(
            pid as int,
            current,
            e.is_same_binary,
            e.comm is Some && trimmed(e.comm->0@) == "neutron"@,
        ) {
            Some(pid)
        } else {
            None
        },
        Err(_) => None,
    }
}

/// The processes of entries that are ended.
pub open spec fn all_ended(entries: Seq<ProcessEntry>, current: int) -> Seq<nat>
    decreases entries.len(),
{
    if entries.len() == 0 {
        Seq::empty()
    } else {
        let before = all_ended(entries.drop_last(), current);
        match ended(entries.last(), current) {
            Some(pid) => before.push(pid),
            None => before,
        }
    }
}

/// The processes that are ended, from the entries of the list of processes. An
/// entry whose name is no number describes no process.
pub fn processes_to_terminate(entries: &[ProcessEntry], current_pid: u32) -> (r: Vec<u32>)
    ensures
        r@.map_values(|p: u32| p as nat) == all_ended(entries@, current_pid as int),
{
    let mut r: Vec<u32> = Vec::new();
    let mut i: usize = 0;
    assert(entries@.take(0) =~= Seq::<ProcessEntry>::empty());
    assert(r@.map_values(|p: u32| p as nat) =~= Seq::<nat>::empty());
    while i < entries.len()
        invariant
            i <= entries.len(),
            r@.map_values(|p: u32| p as nat) == all_ended(
                entries@.take(i as int),
                current_pid as int,
            ),
        decreases entries.len() - i,
    {
        proof {
            let next = entries@.take(i as int + 1);
            assert(next.drop_last() =~= entries@.take(i as int));
            assert(next.last() == entries@[i as int]);
        }
        let e = &entries[i];
        match parse_number(e.entry.as_str(), u32::MAX as u64) {
            Ok(pid) => {
                let named = match &e.comm {
                    Some(comm) => same(trim(comm.as_str()), "neutron"),
                    None => false,
                };
                if should_terminate_process(pid as u32, current_pid, e.is_same_binary, named) {
                    let ghost before = r@.map_values(|p: u32| p as nat);
                    r.push(pid as u32);
                    assert(r@.map_values(|p: u32| p as nat) =~= before.push(pid as nat));
                }
            },
            Err(_) => {},
        }
        i += 1;
    }
    assert(entries@.take(i as int) =~= entries@);
    r
}

/// Neither the process itself nor the first process of the system is ever ended.
pub proof fn law_never_ends_itself(entries: Seq<ProcessEntry>, current: int, i: int)
    requires
        0 <= i < all_ended(entries, current).len(),
    ensures
        all_ended(entries, current)[i] != current,
        all_ended(entries, current)[i] > 1,
    decreases entries.len(),
{
    let before = all_ended(entries.drop_last(), current);
    if i < before.len() {
        law_never_ends_itself(entries.drop_last(), current, i);
    }
}

/// A process is ended exactly where it is another process of this program: its
/// entry is a number above one that is not the own one, and it runs the same binary
/// or has the name of the program.
pub proof fn law_others_are_ended(entries: Seq<ProcessEntry>, current: int, pid: nat)
    ensures
        all_ended(entries, current).contains(pid) <==> pid > 1 && pid != current && exists|i: int|
            0 <= i < entries.len() && number_value(
                (#[trigger] entries[i]).entry@,
                u32::MAX as nat,
            ) == Ok::<nat, NumberError>(pid) && (entries[i].is_same_binary || (
            entries[i].comm matches Some(name) && trimmed(name@) == "neutron"@)),
    decreases entries.len(),
{
    if entries.len() > 0 {
        let less = entries.drop_last();
        let n = entries.len() - 1;
        let before = all_ended(less, current);
        let all = all_ended(entries, current);
        law_others_are_ended(less, current, pid);
        assert(forall|i: int| 0 <= i < n ==> less[i] == entries[i]);
        if let Some(p) = ended(entries.last(), current) {
            assert(all == before.push(p));
            if before.contains(pid) {
                let k = choose|k: int| 0 <= k < before.len() && before[k] == pid;
                assert(all[k] == pid);
            }
            if p == pid {
                assert(all[before.len() as int] == pid);
            }
            if all.contains(pid) && p != pid {
                let k = choose|k: int| 0 <= k < all.len() && all[k] == pid;
                assert(before[k] == pid);
            }
        }
        if before.contains(pid) {
            let i = choose|i: int|
                0 <= i < less.len() && number_value((#[trigger] less[i]).entry@, u32::MAX as nat)
                    == Ok::<nat, NumberError>(pid) && (less[i].is_same_binary || (
                less[i].comm matches Some(name) && trimmed(name@) == "neutron"@));
            assert(entries[i] == less[i]);
        }
        if pid > 1 && pid != current && exists|i: int|
            0 <= i < entries.len() && number_value(
                (#[trigger] entries[i]).entry@,
                u32::MAX as nat,
            ) == Ok::<nat, NumberError>(pid) && (entries[i].is_same_binary || (
            entries[i].comm matches Some(name) && trimmed(name@) == "neutron"@)) {
            let i = choose|i: int|
                0 <= i < entries.len() && number_value(
                    (#[trigger] entries[i]).entry@,
                    u32::MAX as nat,
                ) == Ok::<nat, NumberError>(pid) && (entries[i].is_same_binary || (
                entries[i].comm matches Some(name) && trimmed(name@) == "neutron"@));
            if i < n {
                assert(less[i] == entries[i]);
            }
        }
    }
}

} // verus!
