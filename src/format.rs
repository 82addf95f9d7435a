//! Human-readable forms of durations, memory sizes, port lists and long
//! command lines.

use vstd::prelude::*;
use crate::text::{append_chars, chars_of, decimal, decimal_chars, digit_char, string_of};

verus! {

/// `"{days}d {hours}h"`, `"{hours}h {minutes}m"`, `"{minutes}m {secs}s"` or
/// `"{secs}s"`: the two largest units from the first that is not zero.
pub open spec fn duration_text(seconds: nat) -> Seq<char> {
    let days = seconds / 86400;
    let hours = (seconds % 86400) / 3600;
    let minutes = (seconds % 3600) / 60;
    let secs = seconds % 60;
    if days > 0 {
        decimal(days) + seq!['d', ' '] + decimal(hours) + seq!['h']
    } else if hours > 0 {
        decimal(hours) + seq!['h', ' '] + decimal(minutes) + seq!['m']
    } else if minutes > 0 {
        decimal(minutes) + seq!['m', ' '] + decimal(secs) + seq!['s']
    } else {
        decimal(secs) + seq!['s']
    }
}

fn push_pair(out: &mut Vec<char>, a: u64, unit_a: char, b: u64, unit_b: char)
    ensures
        final(out)@ == old(out)@ + decimal(a as nat) + seq![unit_a, ' '] + decimal(b as nat) + seq![unit_b],
{
    let da = decimal_chars(a);
    append_chars(out, &da);
    out.push(unit_a);
    out.push(' ');
    let db = decimal_chars(b);
    append_chars(out, &db);
    out.push(unit_b);
    assert(out@ =~= old(out)@ + decimal(a as nat) + seq![unit_a, ' '] + decimal(b as nat) + seq![unit_b]);
}

/// Formats a number of seconds as a duration.
pub fn format_duration(seconds: u64) -> (r: String)
    ensures
        r@ == duration_text(seconds as nat),
{
    let days = seconds / 86400;
    let hours = (seconds % 86400) / 3600;
    let minutes = (seconds % 3600) / 60;
    let secs = seconds % 60;
    let mut out: Vec<char> = Vec::new();
    if days > 0 {
        push_pair(&mut out, days, 'd', hours, 'h');
    } else if hours > 0 {
        push_pair(&mut out, hours, 'h', minutes, 'm');
    } else if minutes > 0 {
        push_pair(&mut out, minutes, 'm', secs, 's');
    } else {
        out = decimal_chars(secs);
        out.push('s');
    }
    assert(out@ =~= duration_text(seconds as nat));
    string_of(&out)
}

/// The unit a size is shown in: the largest of B, KB, MB, GB, TB (steps of
/// 1024) that the size reaches.
pub open spec fn unit_index(bytes: nat) -> nat {
    if bytes < 1024 {
        0
    } else if bytes < 1048576 {
        1
    } else if bytes < 1073741824 {
        2
    } else if bytes < 1099511627776 {
        3
    } else {
        4
    }
}

pub open spec fn unit_size(k: nat) -> nat {
    if k == 0 {
        1
    } else if k == 1 {
        1024
    } else if k == 2 {
        1048576
    } else if k == 3 {
        1073741824
    } else {
        1099511627776
    }
}

pub open spec fn unit_name(k: nat) -> Seq<char> {
    if k == 0 {
        seq!['B']
    } else if k == 1 {
        seq!['K', 'B']
    } else if k == 2 {
        seq!['M', 'B']
    } else if k == 3 {
        seq!['G', 'B']
    } else {
        seq!['T', 'B']
    }
}

/// `bytes / unit` in tenths, rounded to the nearest, ties to even.
pub open spec fn tenths(bytes: nat, unit: nat) -> nat
    recommends
        unit > 0,
{
    let q = (10 * bytes) / unit;
    let rem = (10 * bytes) % unit;
    if 2 * rem > unit || (2 * rem == unit && q % 2 == 1) {
        q + 1
    } else {
        q
    }
}

/// Whole bytes below 1024 (`"512 B"`); above, the size in its unit with one
/// decimal (`"1.5 KB"`).
pub open spec fn memory_text(bytes: nat) -> Seq<char> {
    let k = unit_index(bytes);
    if k == 0 {
        decimal(bytes) + seq![' '] + unit_name(0)
    } else {
        let t = tenths(bytes, unit_size(k));
        decimal(t / 10) + seq!['.', digit_char(t % 10), ' '] + unit_name(k)
    }
}

fn unit_of(bytes: u64) -> (r: (u64, usize))
    ensures
        r.0 == unit_size(unit_index(bytes as nat)),
        r.1 == unit_index(bytes as nat),
{
    if bytes < 1024 {
        (1, 0)
    } else if bytes < 1048576 {
        (1024, 1)
    } else if bytes < 1073741824 {
        (1048576, 2)
    } else if bytes < 1099511627776 {
        (1073741824, 3)
    } else {
        (1099511627776, 4)
    }
}

fn push_unit_name(out: &mut Vec<char>, k: usize)
    requires
        k <= 4,
    ensures
        final(out)@ == old(out)@ + unit_name(k as nat),
{
    if k == 1 {
        out.push('K');
    } else if k == 2 {
        out.push('M');
    } else if k == 3 {
        out.push('G');
    } else if k == 4 {
        out.push('T');
    }
    out.push('B');
    assert(out@ =~= old(out)@ + unit_name(k as nat));
}

/// Formats a number of bytes as a memory size. Rounding is exact: the
/// decimal is that of `bytes / unit` rounded to the nearest tenth, ties to
/// even.
pub fn format_memory(bytes: u64) -> (r: String)
    ensures
        r@ == memory_text(bytes as nat),
{
    let (unit, k) = unit_of(bytes);
    let mut out: Vec<char>;
    if k == 0 {
        out = decimal_chars(bytes);
        out.push(' ');
        push_unit_name(&mut out, 0);
    } else {
        let scaled: u128 = 10 * (bytes as u128);
        let q: u128 = scaled / (unit as u128);
        let rem: u128 = scaled % (unit as u128);
        let t: u128 = if 2 * rem > unit as u128 || (2 * rem == unit as u128 && q % 2 == 1) {
            q + 1
        } else {
            q
        };
        assert(t == tenths(bytes as nat, unit as nat));
        assert(q <= 10 * (bytes as nat)) by (nonlinear_arith)
            requires
                q == (10 * (bytes as nat)) / (unit as nat),
                unit >= 1024,
        ;
        let whole = (t / 10) as u64;
        let d = (t % 10) as u32;
        out = decimal_chars(whole);
        out.push('.');
        out.push(char_of(d));
        out.push(' ');
        push_unit_name(&mut out, k);
    }
    assert(out@ =~= memory_text(bytes as nat));
    string_of(&out)
}

fn char_of(d: u32) -> (r: char)
    requires
        d < 10,
    ensures
        r == digit_char(d as nat),
{
    match d {
        0 => '0',
        1 => '1',
        2 => '2',
        3 => '3',
        4 => '4',
        5 => '5',
        6 => '6',
        7 => '7',
        8 => '8',
        _ => '9',
    }
}

/// Every port number, ascending.
pub open spec fn all_ports() -> Seq<u16> {
    Seq::new(65536, |i: int| i as u16)
}

/// The distinct ports of `ports`, ascending.
pub open spec fn ascending_ports(ports: Seq<u16>) -> Seq<u16> {
    all_ports().filter(|p: u16| ports.contains(p))
}

/// Port numbers joined by `", "`.
pub open spec fn join_ports(q: Seq<u16>) -> Seq<char>
    decreases q.len(),
{
    if q.len() == 0 {
        seq![]
    } else if q.len() == 1 {
        decimal(q[0] as nat)
    } else {
        join_ports(q.drop_last()) + seq![',', ' '] + decimal(q.last() as nat)
    }
}

/// Whether `p` is among `v`.
pub fn contains_port(v: &Vec<u16>, p: u16) -> (r: bool)
    ensures
        r == v@.contains(p),
{
    let mut i: usize = 0;
    while i < v.len()
        invariant
            i <= v@.len(),
            forall|j: int| 0 <= j < i ==> v@[j] != p,
        decreases v@.len() - i,
    {
        if v[i] == p {
            assert(v@[i as int] == p);
            return true;
        }
        i += 1;
    }
    false
}

/// The ports, each once, ascending, joined by `", "`.
pub fn format_port_list(ports: &Vec<u16>) -> (r: String)
    ensures
        r@ == join_ports(ascending_ports(ports@)),
{
    let ghost pred = |p: u16| ports@.contains(p);
    let mut sorted: Vec<u16> = Vec::new();
    let mut v: u32 = 0;
    assert(all_ports().take(0) =~= Seq::<u16>::empty());
    assert(Seq::<u16>::empty().filter(pred) =~= Seq::<u16>::empty()) by {
        reveal(Seq::filter);
    }
    while v < 65536
        invariant
            v <= 65536,
            pred == (|p: u16| ports@.contains(p)),
            sorted@ == all_ports().take(v as int).filter(pred),
        decreases 65536 - v,
    {
        let p = v as u16;
        proof {
            assert(all_ports().take(v + 1) =~= all_ports().take(v as int).push(p));
            all_ports().take(v as int).lemma_filter_push(p, pred);
        }
        if contains_port(ports, p) {
            sorted.push(p);
        }
        v += 1;
    }
    assert(all_ports().take(65536) =~= all_ports());
    let mut out: Vec<char> = Vec::new();
    let mut i: usize = 0;
    assert(sorted@.take(0) =~= Seq::<u16>::empty());
    while i < sorted.len()
        invariant
            i <= sorted@.len(),
            out@ == join_ports(sorted@.take(i as int)),
        decreases sorted@.len() - i,
    {
        let ghost t = sorted@.take(i + 1);
        assert(t.drop_last() =~= sorted@.take(i as int));
        if i > 0 {
            out.push(',');
            out.push(' ');
        }
        let d = decimal_chars(sorted[i] as u64);
        append_chars(&mut out, &d);
        assert(out@ =~= join_ports(t));
        i += 1;
    }
    assert(sorted@.take(sorted@.len() as int) =~= sorted@);
    string_of(&out)
}

/// A command line cut to `max_length` characters: one that is longer keeps
/// its first `max_length - 3` characters (none when `max_length < 3`),
/// followed by `...`.
pub open spec fn truncated(s: Seq<char>, max_length: nat) -> Seq<char> {
    if s.len() <= max_length {
        s
    } else {
        let keep: nat = if max_length >= 3 {
            (max_length - 3) as nat
        } else {
            0
        };
        s.subrange(0, keep as int) + seq!['.', '.', '.']
    }
}

/// Cuts a command line for display.
pub fn truncate_command(command: &str, max_length: usize) -> (r: String)
    ensures
        r@ == truncated(command@, max_length as nat),
{
    let cs = chars_of(command);
    if cs.len() <= max_length {
        return string_of(&cs);
    }
    let keep = max_length.saturating_sub(3);
    let mut out: Vec<char> = Vec::new();
    let mut i: usize = 0;
    while i < keep
        invariant
            i <= keep,
            keep < cs@.len(),
            keep == (if max_length >= 3 {
                max_length - 3
            } else {
                0
            }),
            out@ == cs@.subrange(0, i as int),
        decreases keep - i,
    {
        out.push(cs[i]);
        assert(out@ =~= cs@.subrange(0, i + 1));
        i += 1;
    }
    out.push('.');
    out.push('.');
    out.push('.');
    assert(out@ =~= truncated(command@, max_length as nat));
    string_of(&out)
}

} // verus!
