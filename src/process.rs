//! Process lifecycle: which processes must never be terminated, and the
//! graceful-then-forceful termination sequence.

use vstd::prelude::*;
use crate::host::{process_table, refresh_snapshot, send_signal, snapshot, KillSignal, ProcessEntry};
use crate::scanner::{PortInfo, ScanError};
use crate::text::chars_of;

verus! {

/// What `str::to_lowercase` returns for a string.
pub uninterp spec fn lower_of(s: Seq<char>) -> Seq<char>;

/// Relies on `str::to_lowercase`: the lowercase form of each character, in
/// order; it depends on the characters alone.
#[verifier::external_body]
pub(crate) fn lowercase(s: &str) -> (r: String)
    ensures
        r@ == lower_of(s@),
{
    s.to_lowercase()
}

/// `needle` occurs in `hay` as a contiguous run.
pub open spec fn occurs_in(needle: Seq<char>, hay: Seq<char>) -> bool {
    exists|i: int| 0 <= i <= hay.len() - needle.len() && #[trigger] hay.subrange(i, i + needle.len()) == needle
}

/// The critical-process names, in lowercase: kernels, init systems, session
/// and login daemons, window managers of Linux, Windows and macOS.
pub open spec fn critical_names() -> Seq<Seq<char>> {
    seq![
        "systemd"@, "kernel"@, "init"@, "kthreadd"@, "rcu_gp"@, "rcu_par_gp"@, "migration"@,
        "ksoftirqd"@, "watchdog"@, "sshd"@, "dbus"@, "networkd"@, "wpa_supplicant"@, "dhcpcd"@,
        "chronyd"@, "rsyslog"@, "system"@, "smss.exe"@, "csrss.exe"@, "wininit.exe"@,
        "winlogon.exe"@, "services.exe"@, "lsass.exe"@, "dwm.exe"@, "explorer.exe"@, "launchd"@,
        "kernel_task"@, "windowserver"@, "loginwindow"@, "dock"@,
    ]
}

/// A lowercase name is critical when a critical name occurs in it.
pub open spec fn is_critical_name(folded: Seq<char>) -> bool {
    exists|k: int| 0 <= k < critical_names().len() && occurs_in(#[trigger] critical_names()[k], folded)
}

fn critical_patterns() -> (r: Vec<Vec<char>>)
    ensures
        r@.len() == critical_names().len(),
        forall|k: int| 0 <= k < r@.len() ==> #[trigger] r@[k]@ == critical_names()[k],
{
    let mut v: Vec<Vec<char>> = Vec::new();
    v.push(chars_of("systemd"));
    v.push(chars_of("kernel"));
    v.push(chars_of("init"));
    v.push(chars_of("kthreadd"));
    v.push(chars_of("rcu_gp"));
    v.push(chars_of("rcu_par_gp"));
    v.push(chars_of("migration"));
    v.push(chars_of("ksoftirqd"));
    v.push(chars_of("watchdog"));
    v.push(chars_of("sshd"));
    v.push(chars_of("dbus"));
    v.push(chars_of("networkd"));
    v.push(chars_of("wpa_supplicant"));
    v.push(chars_of("dhcpcd"));
    v.push(chars_of("chronyd"));
    v.push(chars_of("rsyslog"));
    v.push(chars_of("system"));
    v.push(chars_of("smss.exe"));
    v.push(chars_of("csrss.exe"));
    v.push(chars_of("wininit.exe"));
    v.push(chars_of("winlogon.exe"));
    v.push(chars_of("services.exe"));
    v.push(chars_of("lsass.exe"));
    v.push(chars_of("dwm.exe"));
    v.push(chars_of("explorer.exe"));
    v.push(chars_of("launchd"));
    v.push(chars_of("kernel_task"));
    v.push(chars_of("windowserver"));
    v.push(chars_of("loginwindow"));
    v.push(chars_of("dock"));
    v
}

fn matches_at(hay: &Vec<char>, needle: &Vec<char>, i: usize) -> (r: bool)
    requires
        i + needle@.len() <= hay@.len(),
    ensures
        r == (hay@.subrange(i as int, i + needle@.len()) == needle@),
{
    let n = hay.len();
    let mut j: usize = 0;
    while j < needle.len()
        invariant
            j <= needle@.len(),
            n == hay@.len(),
            i + needle@.len() <= hay@.len(),
            forall|t: int| 0 <= t < j ==> hay@[i + t] == needle@[t],
        decreases needle@.len() - j,
    {
        if hay[i + j] != needle[j] {
            assert(hay@.subrange(i as int, i + needle@.len())[j as int] != needle@[j as int]);
            return false;
        }
        j += 1;
    }
    assert(hay@.subrange(i as int, i + needle@.len()) =~= needle@);
    true
}

/// Whether `needle` occurs in `hay`.
pub fn contains_chars(hay: &Vec<char>, needle: &Vec<char>) -> (r: bool)
    ensures
        r == occurs_in(needle@, hay@),
{
    let n = hay.len();
    let m = needle.len();
    if m > n {
        return false;
    }
    if m == 0 {
        assert(hay@.subrange(0, 0 + needle@.len() as int) =~= needle@);
        return true;
    }
    let mut i: usize = 0;
    while i <= n - m
        invariant
            0 < m <= n,
            n == hay@.len(),
            m == needle@.len(),
            forall|t: int| 0 <= t < i ==> #[trigger] hay@.subrange(t, t + m) != needle@,
        decreases n - m + 1 - i,
    {
        if matches_at(hay, needle, i) {
            return true;
        }
        i += 1;
    }
    false
}

/// Whether a lowercase process name contains one of the critical names.
pub fn is_critical_folded(folded: &str) -> (r: bool)
    ensures
        r == is_critical_name(folded@),
{
    let name = chars_of(folded);
    let pats = critical_patterns();
    let mut k: usize = 0;
    while k < pats.len()
        invariant
            k <= pats@.len() == critical_names().len(),
            name@ == folded@,
            forall|q: int| 0 <= q < pats@.len() ==> #[trigger] pats@[q]@ == critical_names()[q],
            forall|q: int| 0 <= q < k ==> !occurs_in(#[trigger] critical_names()[q], folded@),
        decreases pats@.len() - k,
    {
        if contains_chars(&name, &pats[k]) {
            assert(occurs_in(critical_names()[k as int], folded@));
            return true;
        }
        k += 1;
    }
    false
}

/// Why a termination could not be attempted.
#[derive(PartialEq, Eq, Structural, Clone, Copy, Debug)]
pub enum TerminationError {
    /// No process with this pid is in the process table.
    NotFound(u32),
}

/// One signal handed to a process of the table: its pid, the signal, and
/// what the platform reported (`None`: the signal is not supported; else
/// whether it was sent).
pub struct SentSignal {
    pub pid: u32,
    pub signal: KillSignal,
    pub report: Option<bool>,
}

/// The result of a termination, from the report of its last signal and the
/// report of the graceful signal before it. `report` is `None` when no
/// signal could be sent because the process had gone: the graceful signal
/// then did the work, and its report decides. A signal the platform does not
/// support counts as a failure.
pub open spec fn outcome(report: Option<Option<bool>>, graceful: Option<bool>) -> bool {
    match report {
        Some(Some(b)) => b,
        Some(None) => false,
        None => match graceful {
            Some(b) => b,
            None => false,
        },
    }
}

/// The result of a termination: see `outcome`.
pub fn termination_outcome(report: Option<Option<bool>>, graceful: Option<bool>) -> (r: bool)
    ensures
        r == outcome(report, graceful),
{
    match report {
        Some(Some(b)) => b,
        Some(None) => false,
        None => match graceful {
            Some(b) => b,
            None => false,
        },
    }
}

/// Terminates processes, over a snapshot of the process table.
pub struct ProcessManager {
    system: sysinfo::System,
    sent: Ghost<Seq<SentSignal>>,
}

impl ProcessManager {
    /// The process table as last taken.
    pub closed spec fn table(&self) -> Map<u32, ProcessEntry> {
        process_table(self.system)
    }

    /// Every signal this manager has handed to a process, in order.
    pub closed spec fn signals_sent(&self) -> Seq<SentSignal> {
        self.sent@
    }

    pub fn new() -> (r: ProcessManager)
        ensures
            r.signals_sent() == Seq::<SentSignal>::empty(),
    {
        ProcessManager { system: snapshot(), sent: Ghost(Seq::empty()) }
    }

    /// Takes the process snapshot again.
    pub fn refresh(&mut self)
        ensures
            final(self).signals_sent() == old(self).signals_sent(),
    {
        refresh_snapshot(&mut self.system);
    }

    /// Whether a process of this name must never be terminated: one of the
    /// critical names occurs in it, letter case aside. Callers check this
    /// before asking for a termination; the manager does not.
    pub fn is_system_critical(&self, process_name: &str) -> (r: bool)
        ensures
            r == is_critical_name(lower_of(process_name@)),
    {
        let folded = lowercase(process_name);
        is_critical_folded(folded.as_str())
    }

    /// Hands `signal` to `pid` when the table holds it, and records it.
    fn signal(&mut self, pid: u32, signal: KillSignal) -> (r: Option<Option<bool>>)
        ensures
            final(self).table() == old(self).table(),
            r is Some <==> old(self).table().contains_key(pid),
            match r {
                Some(report) => final(self).signals_sent() == old(self).signals_sent().push(
                    SentSignal { pid, signal, report },
                ),
                None => final(self).signals_sent() == old(self).signals_sent(),
            },
    {
        let r = send_signal(&self.system, pid, signal);
        match r {
            Some(report) => {
                self.sent = Ghost(self.sent@.push(SentSignal { pid, signal, report }));
            },
            None => {},
        }
        r
    }

    /// The first phase of a termination: takes the snapshot again, then,
    /// if the process is in it, hands it the graceful signal and returns
    /// that signal's report. A pid missing from the table is an error, and
    /// no signal is sent.
    pub fn request_termination(&mut self, pid: u32) -> (r: Result<Option<bool>, TerminationError>)
        ensures
            r is Ok <==> final(self).table().contains_key(pid),
            match r {
                Ok(report) => final(self).signals_sent() == old(self).signals_sent().push(
                    SentSignal { pid, signal: KillSignal::Graceful, report },
                ),
                Err(e) => e == TerminationError::NotFound(pid) && final(self).signals_sent()
                    == old(self).signals_sent(),
            },
    {
        self.refresh();
        match self.signal(pid, KillSignal::Graceful) {
            Some(report) => Ok(report),
            None => Err(TerminationError::NotFound(pid)),
        }
    }

    /// The second phase, once the grace period is over: takes the snapshot
    /// again. A process that has exited counts as terminated by the graceful
    /// signal, whose report (`graceful`) decides the result, and nothing is
    /// sent. One still running is handed the forceful signal, whose report
    /// decides the result.
    pub fn complete_termination(&mut self, pid: u32, graceful: Option<bool>) -> (r: bool)
        ensures
            final(self).table().contains_key(pid) ==> ({
                let sent = final(self).signals_sent();
                &&& sent.len() == old(self).signals_sent().len() + 1
                &&& sent.drop_last() == old(self).signals_sent()
                &&& sent.last().pid == pid
                &&& sent.last().signal == KillSignal::Forceful
                &&& r == outcome(Some(sent.last().report), graceful)
            }),
            !final(self).table().contains_key(pid) ==> final(self).signals_sent() == old(
                self,
            ).signals_sent() && r == outcome(None, graceful),
    {
        self.refresh();
        let report = self.signal(pid, KillSignal::Forceful);
        termination_outcome(report, graceful)
    }

    /// A termination in one step, for platforms whose processes take no
    /// graceful signal: takes the snapshot again and, if the process is in
    /// it, hands it the forceful signal; the result is that signal's report.
    /// A pid missing from the table is an error, and no signal is sent.
    pub fn terminate_immediately(&mut self, pid: u32) -> (r: Result<bool, TerminationError>)
        ensures
            r is Ok <==> final(self).table().contains_key(pid),
            match r {
                Ok(b) => {
                    let sent = final(self).signals_sent();
                    &&& sent.len() == old(self).signals_sent().len() + 1
                    &&& sent.drop_last() == old(self).signals_sent()
                    &&& sent.last().pid == pid
                    &&& sent.last().signal == KillSignal::Forceful
                    &&& b == outcome(Some(sent.last().report), None)
                },
                Err(e) => e == TerminationError::NotFound(pid) && final(self).signals_sent()
                    == old(self).signals_sent(),
            },
    {
        self.refresh();
        match self.signal(pid, KillSignal::Forceful) {
            Some(report) => Ok(termination_outcome(Some(report), None)),
            None => Err(TerminationError::NotFound(pid)),
        }
    }
}

/// What the kill command does for one port, from the lookup of its process.
pub enum KillStep {
    /// The lookup failed.
    ScanFailed(ScanError),
    /// No process listens on the port.
    NotInUse,
    /// The process is critical and is left alone.
    SkipCritical { pid: u32, process_name: String },
    /// The process may be terminated (after confirmation, where asked).
    Terminate { pid: u32, process_name: String, command: String },
}

/// The step for one port: a critical process is never offered for
/// termination.
pub fn plan_kill(manager: &ProcessManager, found: Result<Option<PortInfo>, ScanError>) -> (r: KillStep)
    ensures
        match found {
            Err(e) => r == KillStep::ScanFailed(e),
            Ok(None) => r == KillStep::NotInUse,
            Ok(Some(p)) => if is_critical_name(lower_of(p.process_name@)) {
                r matches KillStep::SkipCritical { pid, process_name } && pid == p.pid
                    && process_name@ == p.process_name@
            } else {
                r matches KillStep::Terminate { pid, process_name, command } && pid == p.pid
                    && process_name@ == p.process_name@ && command@ == p.command@
            },
        },
{
    match found {
        Err(e) => KillStep::ScanFailed(e),
        Ok(None) => KillStep::NotInUse,
        Ok(Some(p)) => {
            if manager.is_system_critical(p.process_name.as_str()) {
                KillStep::SkipCritical { pid: p.pid, process_name: p.process_name }
            } else {
                KillStep::Terminate { pid: p.pid, process_name: p.process_name, command: p.command }
            }
        },
    }
}

} // verus!
