//! Port table resolution: the listening sockets that a platform tool reports,
//! joined with the process table.

use vstd::prelude::*;
use crate::host::{lookup_process, process_table, refresh_snapshot, snapshot, ProcessEntry, ProcessMeta};
use crate::text::{
    decimal, is_digit, lemma_decimal_reads_back, lemma_first_index, lemma_last_index, lemma_parse_decimal,
    append_chars, chars_of, copy_range, find_char, first_index_of, last_index_of, lines,
    parse_decimal, parse_unsigned, rfind_char, split_lines, split_tokens, string_of, tokens, views,
};

verus! {

pub open spec fn port_max() -> nat {
    65535
}

pub open spec fn pid_max() -> nat {
    4294967295
}

/// A port number as written: `parse_unsigned` bounded by the largest port.
pub open spec fn port_number(s: Seq<char>) -> Option<u16> {
    match parse_unsigned(s, port_max()) {
        Some(n) => Some(n as u16),
        None => None,
    }
}

pub open spec fn pid_number(s: Seq<char>) -> Option<u32> {
    match parse_unsigned(s, pid_max()) {
        Some(n) => Some(n as u32),
        None => None,
    }
}

/// The port of a socket address: the number after its last `:`.
pub open spec fn port_of_address(a: Seq<char>) -> Option<u16> {
    match last_index_of(a, ':') {
        Some(i) => port_number(a.subrange(i + 1, a.len() as int)),
        None => None,
    }
}

/// The pid of a `PID/NAME` or `PID` field; none for `-`.
pub open spec fn pid_of_field(f: Seq<char>) -> Option<u32> {
    if f == seq!['-'] {
        None
    } else {
        match first_index_of(f, '/') {
            Some(k) => pid_number(f.subrange(0, k)),
            None => pid_number(f),
        }
    }
}

/// A line of `netstat -tulnp`: the port of the fourth column and the pid of
/// the last, if any.
pub open spec fn netstat_entry(line: Seq<char>) -> Option<(u16, Option<u32>)> {
    let t = tokens(line);
    if t.len() < 4 {
        None
    } else {
        match port_of_address(t[3]) {
            Some(port) => Some((port, pid_of_field(t.last()))),
            None => None,
        }
    }
}

/// A line of `lsof -i TCP -P -n -s TCP:LISTEN`: the pid of the second column
/// and the port of the ninth, on lines of at least ten columns.
pub open spec fn lsof_entry(line: Seq<char>) -> Option<(u16, u32)> {
    let t = tokens(line);
    if t.len() < 10 {
        None
    } else {
        match pid_number(t[1]) {
            Some(pid) => match port_of_address(t[8]) {
                Some(port) => Some((port, pid)),
                None => None,
            },
            None => None,
        }
    }
}

/// A line of Windows `netstat -ano`: the port of the second column and the
/// pid of the fifth.
pub open spec fn windows_entry(line: Seq<char>) -> Option<(u16, u32)> {
    let t = tokens(line);
    if t.len() < 5 {
        None
    } else {
        match port_of_address(t[1]) {
            Some(port) => match pid_number(t[4]) {
                Some(pid) => Some((port, pid)),
                None => None,
            },
            None => None,
        }
    }
}

/// The line, with surrounding whitespace removed, starts with `TCP`.
pub open spec fn is_tcp_line(line: Seq<char>) -> bool {
    let t = tokens(line);
    t.len() > 0 && t[0].len() >= 3 && t[0].subrange(0, 3) == seq!['T', 'C', 'P']
}

/// The platform facility whose output is parsed.
#[derive(PartialEq, Eq, Structural, Clone, Copy, Debug)]
pub enum ScanTool {
    /// `netstat -tulnp` (Linux).
    Netstat,
    /// `lsof -i TCP -P -n -s TCP:LISTEN` (macOS).
    Lsof,
    /// `netstat -ano` (Windows).
    NetstatWindows,
}

impl ScanTool {
    /// How many leading lines of the tool's output are headers.
    pub open spec fn header_count(self) -> nat {
        match self {
            ScanTool::Netstat => 2,
            ScanTool::Lsof => 1,
            ScanTool::NetstatWindows => 4,
        }
    }

    pub fn header_lines(&self) -> (r: usize)
        ensures
            r == self.header_count(),
    {
        match self {
            ScanTool::Netstat => 2,
            ScanTool::Lsof => 1,
            ScanTool::NetstatWindows => 4,
        }
    }
}

/// `p` begins `s`.
pub open spec fn has_prefix(s: Seq<char>, p: Seq<char>) -> bool {
    p.len() <= s.len() && s.subrange(0, p.len() as int) == p
}

/// The line describes a TCP socket in the listening state: for `netstat`,
/// a `tcp` or `tcp6` line whose state column is `LISTEN`; for `lsof`, a
/// `TCP` node named `(LISTEN)`; for Windows, a `TCP` line whose state
/// column is `LISTENING`.
pub open spec fn is_listening(tool: ScanTool, line: Seq<char>) -> bool {
    let t = tokens(line);
    match tool {
        ScanTool::Netstat => t.len() > 5 && has_prefix(t[0], "tcp"@) && t[5] == "LISTEN"@,
        ScanTool::Lsof => t.len() > 9 && t[7] == "TCP"@ && t[9] == "(LISTEN)"@,
        ScanTool::NetstatWindows => is_tcp_line(line) && t.len() > 3 && t[3] == "LISTENING"@,
    }
}

/// The `(port, pid)` that one data line of the tool's output reports, when
/// it describes a listening TCP socket.
pub open spec fn line_socket(tool: ScanTool, line: Seq<char>) -> Option<(u16, u32)> {
    if !is_listening(tool, line) {
        None
    } else {
        match tool {
            ScanTool::Netstat => match netstat_entry(line) {
                Some((port, Some(pid))) => Some((port, pid)),
                _ => None,
            },
            ScanTool::Lsof => lsof_entry(line),
            ScanTool::NetstatWindows => windows_entry(line),
        }
    }
}

/// The data lines of an output: its lines after the headers.
pub open spec fn body_lines(tool: ScanTool, out: Seq<char>) -> Seq<Seq<char>> {
    let ls = lines(out);
    if tool.header_count() <= ls.len() {
        ls.subrange(tool.header_count() as int, ls.len() as int)
    } else {
        seq![]
    }
}

/// The `(port, pid)` pairs of an output, in the order of its lines.
pub open spec fn sockets_of(tool: ScanTool, out: Seq<char>) -> Seq<(u16, u32)> {
    body_lines(tool, out).filter_map(|l: Seq<char>| line_socket(tool, l))
}

fn port_of_token(a: &Vec<char>) -> (r: Option<u16>)
    ensures
        r == port_of_address(a@),
{
    let n = a.len();
    match rfind_char(a, ':') {
        Some(i) => {
            let digits = copy_range(a, i + 1, n);
            match parse_decimal(&digits, 65535) {
                Some(n) => Some(n as u16),
                None => None,
            }
        },
        None => None,
    }
}

fn pid_of_token(a: &Vec<char>) -> (r: Option<u32>)
    ensures
        r == pid_number(a@),
{
    parse_decimal(a, 4294967295)
}

fn pid_of_column(f: &Vec<char>) -> (r: Option<u32>)
    ensures
        r == pid_of_field(f@),
{
    if f.len() == 1 && f[0] == '-' {
        assert(f@ =~= seq!['-']);
        return None;
    }
    assert(f@ != seq!['-']) by {
        if f@ == seq!['-'] {
            assert(f@.len() == 1 && f@[0] == '-');
        }
    }
    match find_char(f, '/') {
        Some(k) => {
            let head = copy_range(f, 0, k);
            pid_of_token(&head)
        },
        None => pid_of_token(f),
    }
}

fn netstat_entry_of(line: &Vec<char>) -> (r: Option<(u16, Option<u32>)>)
    ensures
        r == netstat_entry(line@),
{
    let t = split_tokens(line);
    let n = t.len();
    if n < 4 {
        return None;
    }
    assert(t@[3]@ == tokens(line@)[3]);
    assert(t@[n - 1]@ == tokens(line@).last());
    match port_of_token(&t[3]) {
        Some(port) => Some((port, pid_of_column(&t[n - 1]))),
        None => None,
    }
}

fn lsof_entry_of(line: &Vec<char>) -> (r: Option<(u16, u32)>)
    ensures
        r == lsof_entry(line@),
{
    let t = split_tokens(line);
    if t.len() < 10 {
        return None;
    }
    assert(t@[1]@ == tokens(line@)[1]);
    assert(t@[8]@ == tokens(line@)[8]);
    match pid_of_token(&t[1]) {
        Some(pid) => match port_of_token(&t[8]) {
            Some(port) => Some((port, pid)),
            None => None,
        },
        None => None,
    }
}

fn windows_entry_of(line: &Vec<char>) -> (r: Option<(u16, u32)>)
    ensures
        r == windows_entry(line@),
{
    let t = split_tokens(line);
    if t.len() < 5 {
        return None;
    }
    assert(t@[1]@ == tokens(line@)[1]);
    assert(t@[4]@ == tokens(line@)[4]);
    match port_of_token(&t[1]) {
        Some(port) => match pid_of_token(&t[4]) {
            Some(pid) => Some((port, pid)),
            None => None,
        },
        None => None,
    }
}

fn is_tcp_line_of(line: &Vec<char>) -> (r: bool)
    ensures
        r == is_tcp_line(line@),
{
    let t = split_tokens(line);
    if t.len() == 0 {
        return false;
    }
    let first = &t[0];
    assert(first@ == tokens(line@)[0]);
    if first.len() < 3 {
        return false;
    }
    let r = first[0] == 'T' && first[1] == 'C' && first[2] == 'P';
    assert(r == (first@.subrange(0, 3) == seq!['T', 'C', 'P'])) by {
        if r {
            assert(first@.subrange(0, 3) =~= seq!['T', 'C', 'P']);
        } else if first@.subrange(0, 3) == seq!['T', 'C', 'P'] {
            assert(first@.subrange(0, 3)[0] == 'T');
            assert(first@.subrange(0, 3)[1] == 'C');
            assert(first@.subrange(0, 3)[2] == 'P');
        }
    }
    r
}

/// Parses one line of Linux `netstat -tulnp` output into its port and, where
/// the last column gives one, its pid. Lines too short, or whose fourth
/// column has no port after its last `:`, give `None`.
pub fn parse_netstat_line(line: &str) -> (r: Option<(u16, Option<u32>)>)
    ensures
        r == netstat_entry(line@),
{
    let cs = chars_of(line);
    netstat_entry_of(&cs)
}

/// Parses one line of macOS `lsof` output into its port and pid.
pub fn parse_lsof_line(line: &str) -> (r: Option<(u16, u32)>)
    ensures
        r == lsof_entry(line@),
{
    let cs = chars_of(line);
    lsof_entry_of(&cs)
}

/// Parses one line of Windows `netstat -ano` output into its port and pid.
pub fn parse_netstat_line_windows(line: &str) -> (r: Option<(u16, u32)>)
    ensures
        r == windows_entry(line@),
{
    let cs = chars_of(line);
    windows_entry_of(&cs)
}

fn same_chars(a: &Vec<char>, b: &Vec<char>) -> (r: bool)
    ensures
        r == (a@ == b@),
{
    if a.len() != b.len() {
        return false;
    }
    let mut i: usize = 0;
    while i < a.len()
        invariant
            i <= a@.len() == b@.len(),
            forall|j: int| 0 <= j < i ==> a@[j] == b@[j],
        decreases a@.len() - i,
    {
        if a[i] != b[i] {
            return false;
        }
        i += 1;
    }
    assert(a@ =~= b@);
    true
}

fn starts_with_chars(s: &Vec<char>, p: &Vec<char>) -> (r: bool)
    ensures
        r == has_prefix(s@, p@),
{
    if p.len() > s.len() {
        return false;
    }
    let head = copy_range(s, 0, p.len());
    same_chars(&head, p)
}

/// Whether token `i` of `t` is `word`.
fn token_is(t: &Vec<Vec<char>>, i: usize, word: &str) -> (r: bool)
    requires
        i < t@.len(),
    ensures
        r == (t@[i as int]@ == word@),
{
    let w = chars_of(word);
    same_chars(&t[i], &w)
}

fn is_listening_of(tool: ScanTool, line: &Vec<char>) -> (r: bool)
    ensures
        r == is_listening(tool, line@),
{
    let t = split_tokens(line);
    let ghost tv = tokens(line@);
    assert(forall|k: int| 0 <= k < t@.len() ==> #[trigger] t@[k]@ == tv[k]);
    match tool {
        ScanTool::Netstat => {
            if t.len() <= 5 {
                return false;
            }
            let tcp = chars_of("tcp");
            starts_with_chars(&t[0], &tcp) && token_is(&t, 5, "LISTEN")
        },
        ScanTool::Lsof => {
            if t.len() <= 9 {
                return false;
            }
            token_is(&t, 7, "TCP") && token_is(&t, 9, "(LISTEN)")
        },
        ScanTool::NetstatWindows => {
            if !is_tcp_line_of(line) || t.len() <= 3 {
                return false;
            }
            token_is(&t, 3, "LISTENING")
        },
    }
}

fn line_socket_of(tool: ScanTool, line: &Vec<char>) -> (r: Option<(u16, u32)>)
    ensures
        r == line_socket(tool, line@),
{
    if !is_listening_of(tool, line) {
        return None;
    }
    match tool {
        ScanTool::Netstat => match netstat_entry_of(line) {
            Some((port, Some(pid))) => Some((port, pid)),
            _ => None,
        },
        ScanTool::Lsof => lsof_entry_of(line),
        ScanTool::NetstatWindows => windows_entry_of(line),
    }
}

/// The `(port, pid)` pairs of the listening sockets that a tool's output
/// reports: header lines skipped, lines without a port or a pid dropped.
pub fn listening_sockets(tool: ScanTool, output: &str) -> (r: Vec<(u16, u32)>)
    ensures
        r@ == sockets_of(tool, output@),
{
    let cs = chars_of(output);
    let ls = split_lines(&cs);
    let skip = tool.header_lines();
    let ghost body = body_lines(tool, output@);
    let mut out: Vec<(u16, u32)> = Vec::new();
    if skip > ls.len() {
        assert(body =~= seq![]);
        return out;
    }
    assert(body =~= views(ls@).subrange(skip as int, ls@.len() as int));
    let mut i: usize = skip;
    assert(body.take(0) =~= seq![]);
    while i < ls.len()
        invariant
            skip <= i <= ls@.len(),
            body == views(ls@).subrange(skip as int, ls@.len() as int),
            out@ == body.take(i - skip).filter_map(|l: Seq<char>| line_socket(tool, l)),
        decreases ls@.len() - i,
    {
        let e = line_socket_of(tool, &ls[i]);
        proof {
            let k = i - skip;
            assert(body[k] == ls@[i as int]@);
            body.lemma_filter_map_take_succ(|l: Seq<char>| line_socket(tool, l), k);
        }
        match e {
            Some(p) => {
                out.push(p);
            },
            None => {},
        }
        i += 1;
    }
    assert(body.take(body.len() as int) =~= body);
    out
}

/// Why a `START-END` port range was refused.
#[derive(PartialEq, Eq, Structural, Clone, Copy, Debug)]
pub enum PortRangeError {
    /// The text is not two parts joined by a single `-`.
    Format,
    /// The part before the `-` is not a port number.
    InvalidStart,
    /// The part after the `-` is not a port number.
    InvalidEnd,
    /// The start is greater than the end.
    StartAfterEnd,
}

impl PortRangeError {
    pub fn message(&self) -> &'static str {
        match self {
            PortRangeError::Format => "Invalid range format. Use: START-END (e.g., 3000-9000)",
            PortRangeError::InvalidStart => "Invalid start port number",
            PortRangeError::InvalidEnd => "Invalid end port number",
            PortRangeError::StartAfterEnd => "Start port must be less than or equal to end port",
        }
    }
}

/// The meaning of a `START-END` range: both ends inclusive.
pub open spec fn port_range(s: Seq<char>) -> Result<(u16, u16), PortRangeError> {
    match first_index_of(s, '-') {
        None => Err(PortRangeError::Format),
        Some(k) => if last_index_of(s, '-') != Some(k) {
            Err(PortRangeError::Format)
        } else {
            match port_number(s.subrange(0, k)) {
                None => Err(PortRangeError::InvalidStart),
                Some(start) => match port_number(s.subrange(k + 1, s.len() as int)) {
                    None => Err(PortRangeError::InvalidEnd),
                    Some(end) => if start > end {
                        Err(PortRangeError::StartAfterEnd)
                    } else {
                        Ok((start, end))
                    },
                },
            }
        },
    }
}

/// Parses a `START-END` port range, both ends inclusive.
pub fn parse_port_range(range_str: &str) -> (r: Result<(u16, u16), PortRangeError>)
    ensures
        r == port_range(range_str@),
{
    let cs = chars_of(range_str);
    let n = cs.len();
    let k = match find_char(&cs, '-') {
        None => {
            return Err(PortRangeError::Format);
        },
        Some(k) => k,
    };
    match rfind_char(&cs, '-') {
        Some(j) => {
            if j != k {
                return Err(PortRangeError::Format);
            }
        },
        None => {
            return Err(PortRangeError::Format);
        },
    }
    let head = copy_range(&cs, 0, k);
    let start = match parse_decimal(&head, 65535) {
        None => {
            return Err(PortRangeError::InvalidStart);
        },
        Some(v) => v as u16,
    };
    let tail = copy_range(&cs, k + 1, n);
    let end = match parse_decimal(&tail, 65535) {
        None => {
            return Err(PortRangeError::InvalidEnd);
        },
        Some(v) => v as u16,
    };
    if start > end {
        return Err(PortRangeError::StartAfterEnd);
    }
    Ok((start, end))
}

/// Ports that development servers commonly use.
pub const COMMON_DEV_PORTS: [u16; 18] = [
    3000, 3001, 3002, 3003, 4000, 4001, 4200, 5000, 5001, 5173, 8000, 8001, 8080, 8081, 8888,
    9000, 9001, 9090,
];

/// One listening socket and the process that owns it.
#[derive(Clone, Debug)]
pub struct PortInfo {
    pub port: u16,
    pub pid: u32,
    pub process_name: String,
    pub command: String,
    pub start_time: u64,
    pub memory_usage: u64,
}

pub struct PortInfoView {
    pub port: u16,
    pub pid: u32,
    pub process_name: Seq<char>,
    pub command: Seq<char>,
    pub start_time: u64,
    pub memory_usage: u64,
}

impl View for PortInfo {
    type V = PortInfoView;

    open spec fn view(&self) -> PortInfoView {
        PortInfoView {
            port: self.port,
            pid: self.pid,
            process_name: self.process_name@,
            command: self.command@,
            start_time: self.start_time,
            memory_usage: self.memory_usage,
        }
    }
}

impl PortInfo {
    /// A copy of this record.
    pub fn duplicate(&self) -> (r: PortInfo)
        ensures
            r@ == self@,
    {
        PortInfo {
            port: self.port,
            pid: self.pid,
            process_name: self.process_name.clone(),
            command: self.command.clone(),
            start_time: self.start_time,
            memory_usage: self.memory_usage,
        }
    }
}

pub open spec fn record_views(v: Seq<PortInfo>) -> Seq<PortInfoView> {
    v.map_values(|x: PortInfo| x@)
}

/// Arguments joined by single spaces.
pub open spec fn join_words(a: Seq<Seq<char>>) -> Seq<char>
    decreases a.len(),
{
    if a.len() == 0 {
        seq![]
    } else if a.len() == 1 {
        a[0]
    } else {
        join_words(a.drop_last()) + seq![' '] + a.last()
    }
}

/// The command line shown for a process: its name, a space, its arguments.
pub open spec fn command_line(e: ProcessEntry) -> Seq<char> {
    e.name + seq![' '] + join_words(e.args)
}

pub open spec fn record_of(port: u16, pid: u32, e: ProcessEntry) -> PortInfoView {
    PortInfoView {
        port,
        pid,
        process_name: e.name,
        command: command_line(e),
        start_time: e.start_time,
        memory_usage: e.memory,
    }
}

/// The record of one socket, where its process is in the table.
pub open spec fn resolve_socket(s: (u16, u32), table: Map<u32, ProcessEntry>) -> Option<
    PortInfoView,
> {
    if table.contains_key(s.1) {
        Some(record_of(s.0, s.1, table[s.1]))
    } else {
        None
    }
}

/// The records of the sockets whose process is in the table, in order.
pub open spec fn resolve_all(sockets: Seq<(u16, u32)>, table: Map<u32, ProcessEntry>) -> Seq<
    PortInfoView,
> {
    sockets.filter_map(|s: (u16, u32)| resolve_socket(s, table))
}

/// The command line shown for a process: its name, a space, and its
/// arguments joined by spaces.
pub fn join_command(name: &String, args: &Vec<String>) -> (r: String)
    ensures
        r@ == name@ + seq![' '] + join_words(args@.map_values(|a: String| a@)),
{
    let mut out = chars_of(name.as_str());
    out.push(' ');
    let ghost head = out@;
    let ghost words = args@.map_values(|a: String| a@);
    let mut k: usize = 0;
    assert(words.take(0) =~= Seq::<Seq<char>>::empty());
    while k < args.len()
        invariant
            k <= args@.len(),
            words == args@.map_values(|a: String| a@),
            out@ == head + join_words(words.take(k as int)),
        decreases args@.len() - k,
    {
        if k > 0 {
            out.push(' ');
        }
        let a = chars_of(args[k].as_str());
        append_chars(&mut out, &a);
        proof {
            let t = words.take(k + 1);
            assert(t.drop_last() =~= words.take(k as int));
            assert(t.last() == a@);
            if k == 0 {
                assert(join_words(words.take(0)) =~= Seq::<char>::empty());
                assert(out@ =~= head + join_words(t));
            } else {
                assert(out@ =~= head + join_words(t));
            }
        }
        k += 1;
    }
    assert(words.take(args@.len() as int) =~= words);
    string_of(&out)
}

fn command_of(m: &ProcessMeta) -> (r: String)
    ensures
        forall|e: ProcessEntry| m.matches(e) ==> r@ == command_line(e),
{
    join_command(&m.name, &m.args)
}

/// Joins each socket with its process in the snapshot; sockets whose process
/// has gone are dropped.
pub fn attach_processes(sockets: &Vec<(u16, u32)>, system: &sysinfo::System) -> (r: Vec<PortInfo>)
    ensures
        record_views(r@) == resolve_all(sockets@, process_table(*system)),
{
    let ghost table = process_table(*system);
    let ghost f = |s: (u16, u32)| resolve_socket(s, table);
    let mut out: Vec<PortInfo> = Vec::new();
    let mut i: usize = 0;
    assert(sockets@.take(0) =~= Seq::<(u16, u32)>::empty());
    while i < sockets.len()
        invariant
            i <= sockets@.len(),
            table == process_table(*system),
            f == (|s: (u16, u32)| resolve_socket(s, table)),
            record_views(out@) == sockets@.take(i as int).filter_map(f),
        decreases sockets@.len() - i,
    {
        let (port, pid) = sockets[i];
        proof {
            sockets@.lemma_filter_map_take_succ(f, i as int);
        }
        match lookup_process(system, pid) {
            Some(m) => {
                let command = command_of(&m);
                let rec = PortInfo {
                    port,
                    pid,
                    process_name: m.name,
                    command,
                    start_time: m.start_time,
                    memory_usage: m.memory,
                };
                let ghost before = out@;
                out.push(rec);
                assert(record_views(out@) =~= record_views(before) + seq![rec@]);
            },
            None => {},
        }
        i += 1;
    }
    assert(sockets@.take(sockets@.len() as int) =~= sockets@);
    out
}

/// How a run of the platform tool ended.
pub enum ToolRun {
    /// The tool could not be started (it is missing, or not permitted).
    NotStarted,
    /// The tool ran and exited unsuccessfully, with its exit code if any.
    Failed(Option<i32>),
    /// The tool ran and succeeded; this is what it printed.
    Succeeded(String),
}

/// Why a scan gave no port table.
#[derive(PartialEq, Eq, Structural, Clone, Copy, Debug)]
pub enum ScanError {
    /// The tool could not be started.
    ToolUnavailable(ScanTool),
    /// The tool exited unsuccessfully, with its exit code if any.
    ToolFailed(ScanTool, Option<i32>),
}

/// The outcome of a scan, over the snapshot's process table.
pub open spec fn scan_result(tool: ScanTool, run: ToolRun, table: Map<u32, ProcessEntry>) -> Result<
    Seq<PortInfoView>,
    ScanError,
> {
    match run {
        ToolRun::NotStarted => Err(ScanError::ToolUnavailable(tool)),
        ToolRun::Failed(code) => Err(ScanError::ToolFailed(tool, code)),
        ToolRun::Succeeded(out) => Ok(resolve_all(sockets_of(tool, out@), table)),
    }
}

pub open spec fn result_views(r: Result<Vec<PortInfo>, ScanError>) -> Result<
    Seq<PortInfoView>,
    ScanError,
> {
    match r {
        Ok(v) => Ok(record_views(v@)),
        Err(e) => Err(e),
    }
}

/// The first record of `records` on `port`.
pub open spec fn first_on_port(records: Seq<PortInfoView>, port: u16) -> Option<PortInfoView>
    decreases records.len(),
{
    if records.len() == 0 {
        None
    } else if records[0].port == port {
        Some(records[0])
    } else {
        first_on_port(records.drop_first(), port)
    }
}

/// The first record on `port`, if any.
pub fn find_port(records: &Vec<PortInfo>, port: u16) -> (r: Option<PortInfo>)
    ensures
        match r {
            Some(x) => first_on_port(record_views(records@), port) == Some(x@),
            None => first_on_port(record_views(records@), port) is None,
        },
{
    let ghost all = record_views(records@);
    let mut i: usize = 0;
    assert(all.subrange(0, all.len() as int) =~= all);
    while i < records.len()
        invariant
            i <= records@.len(),
            all == record_views(records@),
            first_on_port(all, port) == first_on_port(all.subrange(i as int, all.len() as int), port),
        decreases records@.len() - i,
    {
        let ghost rest = all.subrange(i as int, all.len() as int);
        assert(rest.drop_first() =~= all.subrange(i + 1, all.len() as int));
        assert(rest[0] == records@[i as int]@);
        if records[i].port == port {
            return Some(records[i].duplicate());
        }
        i += 1;
    }
    assert(all.subrange(i as int, all.len() as int) =~= Seq::<PortInfoView>::empty());
    None
}

/// Resolves listening sockets to processes, over a snapshot of the process
/// table.
pub struct PortScanner {
    system: sysinfo::System,
}

impl PortScanner {
    /// The process table this scanner resolves pids against.
    pub closed spec fn table(&self) -> Map<u32, ProcessEntry> {
        process_table(self.system)
    }

    pub fn new() -> (r: PortScanner) {
        PortScanner { system: snapshot() }
    }

    /// Takes the process snapshot again; do so before running the tool.
    pub fn refresh(&mut self) {
        refresh_snapshot(&mut self.system);
    }

    /// The port table, from a run of the platform tool: one record for each
    /// listening socket whose process is in the snapshot, in the order of the
    /// tool's lines. Sockets the tool reports twice (a listener on both IPv4
    /// and IPv6) give two records; callers that need one per port keep the
    /// first. A tool that did not start or failed gives the error.
    pub fn scan_all_ports(&self, tool: ScanTool, run: ToolRun) -> (r: Result<Vec<PortInfo>, ScanError>)
        ensures
            result_views(r) == scan_result(tool, run, self.table()),
    {
        match run {
            ToolRun::NotStarted => Err(ScanError::ToolUnavailable(tool)),
            ToolRun::Failed(code) => Err(ScanError::ToolFailed(tool, code)),
            ToolRun::Succeeded(out) => {
                let sockets = listening_sockets(tool, out.as_str());
                Ok(attach_processes(&sockets, &self.system))
            },
        }
    }

    /// The first record of the port table on `port`, if any.
    pub fn get_port_info(&self, tool: ScanTool, run: ToolRun, port: u16) -> (r: Result<
        Option<PortInfo>,
        ScanError,
    >)
        ensures
            match scan_result(tool, run, self.table()) {
                Ok(all) => match r {
                    Ok(Some(x)) => first_on_port(all, port) == Some(x@),
                    Ok(None) => first_on_port(all, port) is None,
                    Err(_) => false,
                },
                Err(e) => r == Err::<Option<PortInfo>, ScanError>(e),
            },
    {
        match self.scan_all_ports(tool, run) {
            Ok(all) => Ok(find_port(&all, port)),
            Err(e) => Err(e),
        }
    }
}

/// Every socket whose process is in the table gives exactly one record, on
/// its port and pid, in the order of the sockets.
pub proof fn law_one_record_per_resolvable_socket(
    sockets: Seq<(u16, u32)>,
    table: Map<u32, ProcessEntry>,
)
    requires
        forall|i: int| 0 <= i < sockets.len() ==> table.contains_key(#[trigger] sockets[i].1),
    ensures
        resolve_all(sockets, table).len() == sockets.len(),
        forall|i: int|
            0 <= i < sockets.len() ==> (#[trigger] resolve_all(sockets, table)[i]).port
                == sockets[i].0 && resolve_all(sockets, table)[i].pid == sockets[i].1,
    decreases sockets.len(),
{
    if sockets.len() > 0 {
        let rest = sockets.drop_last();
        assert forall|i: int| 0 <= i < rest.len() implies table.contains_key(#[trigger] rest[i].1) by {
            assert(rest[i] == sockets[i]);
        }
        law_one_record_per_resolvable_socket(rest, table);
        assert(table.contains_key(sockets.last().1));
        assert forall|i: int| 0 <= i < sockets.len() implies (#[trigger] resolve_all(
            sockets,
            table,
        )[i]).port == sockets[i].0 && resolve_all(sockets, table)[i].pid == sockets[i].1 by {
            if i < rest.len() {
                assert(resolve_all(sockets, table)[i] == resolve_all(rest, table)[i]);
                assert(rest[i] == sockets[i]);
            }
        }
    }
}

/// A `netstat` line whose pid column is `-` reports no socket.
pub proof fn law_dash_pid_reports_nothing(line: Seq<char>)
    requires
        tokens(line).len() >= 4,
        tokens(line).last() == seq!['-'],
    ensures
        line_socket(ScanTool::Netstat, line) is None,
{
}

/// A `netstat` line whose pid column is `-`.
pub open spec fn is_dash_line(line: Seq<char>) -> bool {
    tokens(line).len() >= 4 && tokens(line).last() == seq!['-']
}

proof fn lemma_filter_map_skips<A, B>(s: Seq<A>, p: spec_fn(A) -> bool, f: spec_fn(A) -> Option<B>)
    requires
        forall|x: A| !p(x) ==> (#[trigger] f(x)) is None,
    ensures
        s.filter(p).filter_map(f) == s.filter_map(f),
    decreases s.len(),
{
    reveal(Seq::filter);
    if s.len() > 0 {
        let rest = s.drop_last();
        lemma_filter_map_skips(rest, p, f);
        if p(s.last()) {
            let t = rest.filter(p).push(s.last());
            assert(t.drop_last() =~= rest.filter(p));
            assert(t.last() == s.last());
        }
    }
}

/// Deleting the data lines whose pid column is `-` from a `netstat` output
/// changes none of its records: such lines contribute none.
pub proof fn law_dash_lines_change_nothing(lines: Seq<Seq<char>>, table: Map<u32, ProcessEntry>)
    ensures
        resolve_all(lines.filter(|l: Seq<char>| !is_dash_line(l)).filter_map(
            |l: Seq<char>| line_socket(ScanTool::Netstat, l),
        ), table) == resolve_all(
            lines.filter_map(|l: Seq<char>| line_socket(ScanTool::Netstat, l)),
            table,
        ),
{
    let p = |l: Seq<char>| !is_dash_line(l);
    let f = |l: Seq<char>| line_socket(ScanTool::Netstat, l);
    assert forall|x: Seq<char>| !p(x) implies (#[trigger] f(x)) is None by {
        law_dash_pid_reports_nothing(x);
    }
    lemma_filter_map_skips(lines, p, f);
}

/// The port of `ADDR:PORT` is `PORT`, whatever colons `ADDR` holds, and the
/// pid of `PID/NAME` is `PID`, whatever `NAME` holds.
pub proof fn law_address_and_pid_fields(addr: Seq<char>, port: u16, pid: u32, name: Seq<char>)
    ensures
        port_of_address(addr + seq![':'] + decimal(port as nat)) == Some(port),
        pid_of_field(decimal(pid as nat) + seq!['/'] + name) == Some(pid),
{
    let d = decimal(port as nat);
    let a = addr + seq![':'] + d;
    let k = addr.len() as int;
    lemma_decimal_reads_back(port as nat);
    lemma_last_index(a, ':');
    assert(a[k] == ':');
    assert forall|j: int| k < j < a.len() implies a[j] != ':' by {
        assert(a[j] == d[j - k - 1]);
        assert(is_digit(d[j - k - 1]));
    }
    match last_index_of(a, ':') {
        Some(i) => {
            if i < k {
                assert(a[k] != ':');
            }
            assert(i == k);
        },
        None => {
            assert(a[k] != ':');
        },
    }
    assert(a.subrange(k + 1, a.len() as int) =~= d);
    lemma_parse_decimal(port as nat, port_max());

    let e = decimal(pid as nat);
    let f = e + seq!['/'] + name;
    let m = e.len() as int;
    lemma_decimal_reads_back(pid as nat);
    lemma_first_index(f, '/');
    assert(f[m] == '/');
    assert forall|j: int| 0 <= j < m implies f[j] != '/' by {
        assert(f[j] == e[j]);
        assert(is_digit(e[j]));
    }
    match first_index_of(f, '/') {
        Some(i) => {
            if i > m {
                assert(f[m] != '/');
            }
            assert(i == m);
        },
        None => {
            assert(f[m] != '/');
        },
    }
    assert(f.subrange(0, m) =~= e);
    assert(f != seq!['-']) by {
        assert(f[0] == e[0]);
        assert(is_digit(e[0]));
    }
    lemma_parse_decimal(pid as nat, pid_max());
}

/// Two scans of an unchanged host, the same tool output over the same
/// process table, give the same records, hence the same `(port, pid)` pairs.
pub proof fn law_scan_is_idempotent(
    tool: ScanTool,
    first_output: Seq<char>,
    second_output: Seq<char>,
    first_table: Map<u32, ProcessEntry>,
    second_table: Map<u32, ProcessEntry>,
)
    requires
        first_output == second_output,
        first_table == second_table,
    ensures
        resolve_all(sockets_of(tool, first_output), first_table) == resolve_all(
            sockets_of(tool, second_output),
            second_table,
        ),
        resolve_all(sockets_of(tool, first_output), first_table).map_values(
            |r: PortInfoView| (r.port, r.pid),
        ).to_set() == resolve_all(sockets_of(tool, second_output), second_table).map_values(
            |r: PortInfoView| (r.port, r.pid),
        ).to_set(),
{
}

} // verus!
