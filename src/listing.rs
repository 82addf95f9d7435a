//! Choosing what to show: the records a listing keeps and their order, and
//! the ports a check asks about.

use vstd::prelude::*;
use crate::format::all_ports;
use crate::process::{contains_chars, lower_of, lowercase, occurs_in};
use crate::scanner::{
    parse_port_range, port_number, port_range, record_views, PortInfo, PortInfoView,
    PortRangeError, COMMON_DEV_PORTS,
};
use crate::text::{chars_of, find_char, first_index_of, parse_decimal};

verus! {

/// The ports that development servers commonly use.
pub open spec fn common_ports() -> Seq<u16> {
    seq![
        3000, 3001, 3002, 3003, 4000, 4001, 4200, 5000, 5001, 5173, 8000, 8001, 8080, 8081, 8888,
        9000, 9001, 9090,
    ]
}

/// Whether `port` is a common development port.
pub fn is_common_dev_port(port: u16) -> (r: bool)
    ensures
        r == common_ports().contains(port),
{
    let ports = COMMON_DEV_PORTS;
    assert(ports@ =~= common_ports());
    let mut i: usize = 0;
    while i < 18
        invariant
            i <= 18,
            ports@ == common_ports(),
            forall|j: int| 0 <= j < i ==> common_ports()[j] != port,
        decreases 18 - i,
    {
        if ports[i] == port {
            assert(common_ports()[i as int] == port);
            return true;
        }
        i += 1;
    }
    false
}

/// The ports of the records on common development ports, in order.
pub open spec fn common_in_use(s: Seq<PortInfoView>) -> Seq<u16>
    decreases s.len(),
{
    if s.len() == 0 {
        seq![]
    } else if common_ports().contains(s.last().port) {
        common_in_use(s.drop_last()).push(s.last().port)
    } else {
        common_in_use(s.drop_last())
    }
}

/// The ports of the records that are common development ports, in the
/// order of the records.
pub fn common_ports_in_use(records: &Vec<PortInfo>) -> (r: Vec<u16>)
    ensures
        r@ == common_in_use(record_views(records@)),
{
    let ghost all = record_views(records@);
    let mut out: Vec<u16> = Vec::new();
    let mut i: usize = 0;
    assert(all.take(0) =~= Seq::<PortInfoView>::empty());
    while i < records.len()
        invariant
            i <= records@.len(),
            all == record_views(records@),
            out@ == common_in_use(all.take(i as int)),
        decreases records@.len() - i,
    {
        assert(all.take(i + 1).drop_last() =~= all.take(i as int));
        assert(all.take(i + 1).last() == records@[i as int]@);
        if is_common_dev_port(records[i].port) {
            out.push(records[i].port);
        }
        i += 1;
    }
    assert(all.take(records@.len() as int) =~= all);
    out
}

/// What a listing keeps: common development ports only, if asked; ports in
/// an inclusive range, if given; processes whose name or command line holds
/// the filter, letter case aside, if given.
pub struct Selection {
    pub common: bool,
    pub range: Option<(u16, u16)>,
    pub filter: Option<String>,
}

pub open spec fn keeps(sel: Selection, r: PortInfoView) -> bool {
    &&& (sel.common ==> common_ports().contains(r.port))
    &&& (sel.range matches Some((start, end)) ==> start <= r.port && r.port <= end)
    &&& (sel.filter matches Some(f) ==> occurs_in(lower_of(f@), lower_of(r.process_name))
        || occurs_in(lower_of(f@), lower_of(r.command)))
}

/// The records that the selection keeps, in order.
pub open spec fn kept(sel: Selection, s: Seq<PortInfoView>) -> Seq<PortInfoView>
    decreases s.len(),
{
    if s.len() == 0 {
        seq![]
    } else if keeps(sel, s.last()) {
        kept(sel, s.drop_last()).push(s.last())
    } else {
        kept(sel, s.drop_last())
    }
}

/// The records on port `p`, in order.
pub open spec fn on_port(s: Seq<PortInfoView>, p: u16) -> Seq<PortInfoView>
    decreases s.len(),
{
    if s.len() == 0 {
        seq![]
    } else if s.last().port == p {
        on_port(s.drop_last(), p).push(s.last())
    } else {
        on_port(s.drop_last(), p)
    }
}

/// The records on the ports below `v`, by port; records on one port keep
/// their order.
pub open spec fn ports_below(s: Seq<PortInfoView>, v: nat) -> Seq<PortInfoView>
    decreases v,
{
    if v == 0 {
        seq![]
    } else {
        ports_below(s, (v - 1) as nat) + on_port(s, (v - 1) as u16)
    }
}

/// The records ordered by port, stably.
pub open spec fn by_port(s: Seq<PortInfoView>) -> Seq<PortInfoView> {
    ports_below(s, 65536)
}

fn keeps_record(sel: &Selection, folded_filter: &Option<Vec<char>>, r: &PortInfo) -> (b: bool)
    requires
        match sel.filter {
            Some(f) => folded_filter matches Some(g) && g@ == lower_of(f@),
            None => folded_filter is None,
        },
    ensures
        b == keeps(*sel, r@),
{
    if sel.common && !is_common_dev_port(r.port) {
        return false;
    }
    match sel.range {
        Some((start, end)) => {
            if r.port < start || r.port > end {
                return false;
            }
        },
        None => {},
    }
    match folded_filter {
        Some(g) => {
            let name = chars_of(lowercase(r.process_name.as_str()).as_str());
            if contains_chars(&name, g) {
                return true;
            }
            let command = chars_of(lowercase(r.command.as_str()).as_str());
            contains_chars(&command, g)
        },
        None => true,
    }
}

/// The records of a listing: those the selection keeps, ordered by port,
/// records on one port in their scan order.
pub fn select_ports(ports: &Vec<PortInfo>, sel: &Selection) -> (r: Vec<PortInfo>)
    ensures
        record_views(r@) == by_port(kept(*sel, record_views(ports@))),
{
    let folded_filter: Option<Vec<char>> = match &sel.filter {
        Some(f) => Some(chars_of(lowercase(f.as_str()).as_str())),
        None => None,
    };
    let ghost all = record_views(ports@);
    let mut chosen: Vec<PortInfo> = Vec::new();
    let mut i: usize = 0;
    assert(all.take(0) =~= Seq::<PortInfoView>::empty());
    while i < ports.len()
        invariant
            i <= ports@.len(),
            all == record_views(ports@),
            match sel.filter {
                Some(f) => folded_filter matches Some(g) && g@ == lower_of(f@),
                None => folded_filter is None,
            },
            record_views(chosen@) == kept(*sel, all.take(i as int)),
        decreases ports@.len() - i,
    {
        assert(all.take(i + 1).drop_last() =~= all.take(i as int));
        assert(all.take(i + 1).last() == ports@[i as int]@);
        if keeps_record(sel, &folded_filter, &ports[i]) {
            let ghost before = chosen@;
            chosen.push(ports[i].duplicate());
            assert(record_views(chosen@) =~= record_views(before).push(ports@[i as int]@));
        }
        i += 1;
    }
    assert(all.take(ports@.len() as int) =~= all);
    let ghost k = record_views(chosen@);
    let mut out: Vec<PortInfo> = Vec::new();
    let mut v: u32 = 0;
    while v < 65536
        invariant
            v <= 65536,
            k == record_views(chosen@),
            record_views(out@) == ports_below(k, v as nat),
        decreases 65536 - v,
    {
        let p = v as u16;
        let ghost base = record_views(out@);
        let mut j: usize = 0;
        assert(k.take(0) =~= Seq::<PortInfoView>::empty());
        assert(base =~= base + on_port(k.take(0), p));
        while j < chosen.len()
            invariant
                j <= chosen@.len(),
                k == record_views(chosen@),
                record_views(out@) == base + on_port(k.take(j as int), p),
            decreases chosen@.len() - j,
        {
            assert(k.take(j + 1).drop_last() =~= k.take(j as int));
            assert(k.take(j + 1).last() == chosen@[j as int]@);
            if chosen[j].port == p {
                let ghost before = record_views(out@);
                out.push(chosen[j].duplicate());
                assert(record_views(out@) =~= before.push(chosen@[j as int]@));
            }
            j += 1;
        }
        assert(k.take(chosen@.len() as int) =~= k);
        assert(record_views(out@) =~= ports_below(k, (v + 1) as nat));
        v += 1;
    }
    out
}

/// Why the ports of a check could not be read.
#[derive(PartialEq, Eq, Structural, Clone, Copy, Debug)]
pub enum CheckArgError {
    /// The argument at this index holds a `-` but is not a port range.
    InvalidRange(usize, PortRangeError),
    /// The argument at this index is not a port number.
    InvalidPort(usize),
}

/// The inclusive range of ports an argument asks about: a `START-END`
/// range if it holds a `-`, else a single port.
pub open spec fn arg_range(a: Seq<char>) -> Result<(u16, u16), Option<PortRangeError>> {
    if first_index_of(a, '-') is Some {
        match port_range(a) {
            Ok(r) => Ok(r),
            Err(e) => Err(Some(e)),
        }
    } else {
        match port_number(a) {
            Some(p) => Ok((p, p)),
            None => Err(None),
        }
    }
}

/// The error for the first argument that is not read, if any.
pub open spec fn first_bad_arg(args: Seq<Seq<char>>) -> Option<CheckArgError>
    decreases args.len(),
{
    if args.len() == 0 {
        None
    } else {
        match first_bad_arg(args.drop_last()) {
            Some(e) => Some(e),
            None => match arg_range(args.last()) {
                Ok(_) => None,
                Err(Some(e)) => Some(CheckArgError::InvalidRange((args.len() - 1) as usize, e)),
                Err(None) => Some(CheckArgError::InvalidPort((args.len() - 1) as usize)),
            },
        }
    }
}

pub open spec fn covers(r: Result<(u16, u16), Option<PortRangeError>>, p: u16) -> bool {
    match r {
        Ok((start, end)) => start <= p && p <= end,
        Err(_) => false,
    }
}

/// Some argument asks about port `p`.
pub open spec fn requested(args: Seq<Seq<char>>, p: u16) -> bool {
    exists|i: int| 0 <= i < args.len() && covers(#[trigger] arg_range(args[i]), p)
}

pub open spec fn arg_views(args: Seq<String>) -> Seq<Seq<char>> {
    args.map_values(|a: String| a@)
}

fn range_of_arg(a: &String) -> (r: Result<(u16, u16), Option<PortRangeError>>)
    ensures
        r == arg_range(a@),
{
    let cs = chars_of(a.as_str());
    match find_char(&cs, '-') {
        Some(_) => match parse_port_range(a.as_str()) {
            Ok(r) => Ok(r),
            Err(e) => Err(Some(e)),
        },
        None => match parse_decimal(&cs, 65535) {
            Some(p) => Ok((p as u16, p as u16)),
            None => Err(None),
        },
    }
}

/// The ports a check asks about, each once, ascending: single ports and
/// inclusive `START-END` ranges. The first argument that is neither gives
/// the error.
pub fn ports_to_check(args: &Vec<String>) -> (r: Result<Vec<u16>, CheckArgError>)
    ensures
        match first_bad_arg(arg_views(args@)) {
            Some(e) => r == Err::<Vec<u16>, CheckArgError>(e),
            None => r matches Ok(v) && v@ == all_ports().filter(|p: u16| requested(arg_views(args@), p)),
        },
{
    let ghost av = arg_views(args@);
    let mut ranges: Vec<(u16, u16)> = Vec::new();
    let mut i: usize = 0;
    assert(av.take(0) =~= Seq::<Seq<char>>::empty());
    while i < args.len()
        invariant
            i <= args@.len(),
            av == arg_views(args@),
            first_bad_arg(av.take(i as int)) is None,
            ranges@.len() == i,
            forall|j: int| 0 <= j < i ==> arg_range(av[j]) == Ok::<(u16, u16), Option<PortRangeError>>(#[trigger] ranges@[j]),
        decreases args@.len() - i,
    {
        assert(av.take(i + 1).drop_last() =~= av.take(i as int));
        assert(av.take(i + 1).last() == args@[i as int]@);
        match range_of_arg(&args[i]) {
            Ok(r) => {
                ranges.push(r);
            },
            Err(Some(e)) => {
                proof {
                    lemma_first_bad_extends(av, i as int + 1);
                }
                return Err(CheckArgError::InvalidRange(i, e));
            },
            Err(None) => {
                proof {
                    lemma_first_bad_extends(av, i as int + 1);
                }
                return Err(CheckArgError::InvalidPort(i));
            },
        }
        i += 1;
    }
    assert(av.take(args@.len() as int) =~= av);
    let ghost pred = |p: u16| requested(av, p);
    let mut out: Vec<u16> = Vec::new();
    let mut v: u32 = 0;
    assert(all_ports().take(0) =~= Seq::<u16>::empty());
    assert(Seq::<u16>::empty().filter(pred) =~= Seq::<u16>::empty()) by {
        reveal(Seq::filter);
    }
    while v < 65536
        invariant
            v <= 65536,
            ranges@.len() == av.len(),
            forall|j: int| 0 <= j < av.len() ==> arg_range(av[j]) == Ok::<(u16, u16), Option<PortRangeError>>(#[trigger] ranges@[j]),
            pred == (|p: u16| requested(av, p)),
            out@ == all_ports().take(v as int).filter(pred),
        decreases 65536 - v,
    {
        let p = v as u16;
        let mut hit = false;
        let mut j: usize = 0;
        while j < ranges.len()
            invariant
                j <= ranges@.len(),
                hit ==> requested(av, p),
                !hit ==> forall|q: int| 0 <= q < j ==> !(ranges@[q].0 <= p && p <= ranges@[q].1),
                ranges@.len() == av.len(),
                forall|q: int| 0 <= q < av.len() ==> arg_range(av[q]) == Ok::<(u16, u16), Option<PortRangeError>>(#[trigger] ranges@[q]),
            decreases ranges@.len() - j,
        {
            let (s, e) = ranges[j];
            if s <= p && p <= e {
                assert(arg_range(av[j as int]) == Ok::<(u16, u16), Option<PortRangeError>>(ranges@[j as int]));
                hit = true;
            }
            j += 1;
        }
        proof {
            assert(all_ports().take(v + 1) =~= all_ports().take(v as int).push(p));
            all_ports().take(v as int).lemma_filter_push(p, pred);
            if !hit {
                assert(!requested(av, p)) by {
                    if requested(av, p) {
                        let q = choose|q: int|
                            0 <= q < av.len() && covers(#[trigger] arg_range(av[q]), p);
                        assert(arg_range(av[q]) == Ok::<(u16, u16), Option<PortRangeError>>(ranges@[q]));
                    }
                }
            }
        }
        if hit {
            out.push(p);
        }
        v += 1;
    }
    assert(all_ports().take(65536) =~= all_ports());
    Ok(out)
}

proof fn lemma_first_bad_extends(av: Seq<Seq<char>>, n: int)
    requires
        0 < n <= av.len(),
        first_bad_arg(av.take(n - 1)) is None,
        arg_range(av[n - 1]) is Err,
    ensures
        first_bad_arg(av) == match arg_range(av[n - 1]) {
            Err(Some(e)) => Some(CheckArgError::InvalidRange((n - 1) as usize, e)),
            _ => Some(CheckArgError::InvalidPort((n - 1) as usize)),
        },
    decreases av.len(),
{
    if av.len() == n {
        assert(av.take(n - 1) =~= av.drop_last());
    } else {
        assert(av.drop_last().take(n - 1) =~= av.take(n - 1));
        lemma_first_bad_extends(av.drop_last(), n);
    }
}

} // verus!
