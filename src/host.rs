//! The host's process table, as a `sysinfo` snapshot.
//!
//! A snapshot is opaque; what it holds is named by `process_table`, a map from
//! pid to the entry the snapshot recorded for that process.

use vstd::prelude::*;

verus! {

#[verifier::external_type_specification]
#[verifier::external_body]
pub struct ExSystem(sysinfo::System);

/// What a snapshot records of one process.
pub struct ProcessEntry {
    pub name: Seq<char>,
    pub args: Seq<Seq<char>>,
    pub start_time: u64,
    pub memory: u64,
}

/// The processes that a snapshot holds, by pid.
pub uninterp spec fn process_table(s: sysinfo::System) -> Map<u32, ProcessEntry>;

/// The fields of a process entry, read out of a snapshot.
pub struct ProcessMeta {
    pub name: String,
    pub args: Vec<String>,
    pub start_time: u64,
    pub memory: u64,
}

impl ProcessMeta {
    pub open spec fn matches(&self, e: ProcessEntry) -> bool {
        &&& self.name@ == e.name
        &&& self.args@.map_values(|a: String| a@) == e.args
        &&& self.start_time == e.start_time
        &&& self.memory == e.memory
    }
}

/// The two signals of the termination sequence.
#[derive(PartialEq, Eq, Structural, Clone, Copy, Debug)]
pub enum KillSignal {
    /// Asks the process to exit (SIGTERM).
    Graceful,
    /// Ends the process (SIGKILL).
    Forceful,
}

/// Relies on `sysinfo::System::new_all`: a snapshot of the host, with every
/// kind of information loaded. What it holds depends on the host.
#[verifier::external_body]
pub fn snapshot() -> (r: sysinfo::System) {
    sysinfo::System::new_all()
}

/// Relies on `sysinfo::System::refresh_all`: the snapshot is taken again.
/// What it then holds depends on the host.
#[verifier::external_body]
pub fn refresh_snapshot(s: &mut sysinfo::System) {
    s.refresh_all()
}

/// Relies on `sysinfo::System::process`, a lookup by pid in the snapshot, and
/// on `Process::name`, `cmd`, `start_time` and `memory`, which read the
/// fields of the entry found.
#[verifier::external_body]
pub fn lookup_process(s: &sysinfo::System, pid: u32) -> (r: Option<ProcessMeta>)
    ensures
        r is Some <==> process_table(*s).contains_key(pid),
        r matches Some(m) ==> m.matches(process_table(*s)[pid]),
{
    match s.process(sysinfo::Pid::from(pid as usize)) {
        Some(p) => Some(
            ProcessMeta {
                name: p.name().to_string(),
                args: p.cmd().to_vec(),
                start_time: p.start_time(),
                memory: p.memory(),
            },
        ),
        None => None,
    }
}

/// Relies on `sysinfo::Process::kill_with`, reached through
/// `sysinfo::System::process`: `None` when the snapshot has no such pid, else
/// what `kill_with` reports (`None` when the platform lacks the signal, else
/// whether it was sent). Whether the signal is delivered depends on the host.
#[verifier::external_body]
pub fn send_signal(s: &sysinfo::System, pid: u32, signal: KillSignal) -> (r: Option<
    Option<bool>,
>)
    ensures
        r is Some <==> process_table(*s).contains_key(pid),
{
    let sig = match signal {
        KillSignal::Graceful => sysinfo::Signal::Term,
        KillSignal::Forceful => sysinfo::Signal::Kill,
    };
    match s.process(sysinfo::Pid::from(pid as usize)) {
        Some(p) => Some(p.kill_with(sig)),
        None => None,
    }
}

} // verus!
