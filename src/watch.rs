//! The watch loop's decisions: from the previous tick's state and this
//! tick's scan, the next state and the events to report.

use vstd::prelude::*;
use crate::scanner::{
    find_port, first_on_port, record_views, PortInfo, PortInfoView, ScanError,
};
use crate::format::contains_port;

verus! {

pub open spec fn has_port(scan: Seq<PortInfoView>, p: u16) -> bool {
    exists|i: int| 0 <= i < scan.len() && #[trigger] scan[i].port == p
}

/// The monitored ports that the scan found occupied: each once, in the
/// order of `monitored`.
pub open spec fn occupied_ports(monitored: Seq<u16>, scan: Seq<PortInfoView>) -> Seq<u16>
    decreases monitored.len(),
{
    if monitored.len() == 0 {
        seq![]
    } else {
        let rest = occupied_ports(monitored.drop_last(), scan);
        let p = monitored.last();
        if has_port(scan, p) && !rest.contains(p) {
            rest.push(p)
        } else {
            rest
        }
    }
}

/// What a tick reports.
pub enum WatchEvent {
    /// The first successful tick: the monitored ports found occupied (none:
    /// all are free) and the records on them.
    InitialState { occupied: Vec<u16>, details: Vec<PortInfo> },
    /// A monitored port that was free is now held by this process.
    PortOccupied { port: u16, process_name: String, pid: u32 },
    /// A monitored port that was occupied is now free.
    PortFreed { port: u16 },
    /// The scan failed; the state is kept for the next tick.
    ScanFailed { cause: ScanError },
}

pub enum WatchEventView {
    InitialState { occupied: Seq<u16>, details: Seq<PortInfoView> },
    PortOccupied { port: u16, process_name: Seq<char>, pid: u32 },
    PortFreed { port: u16 },
    ScanFailed { cause: ScanError },
}

impl View for WatchEvent {
    type V = WatchEventView;

    open spec fn view(&self) -> WatchEventView {
        match self {
            WatchEvent::InitialState { occupied, details } => WatchEventView::InitialState {
                occupied: occupied@,
                details: record_views(details@),
            },
            WatchEvent::PortOccupied { port, process_name, pid } => WatchEventView::PortOccupied {
                port: *port,
                process_name: process_name@,
                pid: *pid,
            },
            WatchEvent::PortFreed { port } => WatchEventView::PortFreed { port: *port },
            WatchEvent::ScanFailed { cause } => WatchEventView::ScanFailed { cause: *cause },
        }
    }
}

pub open spec fn event_views(v: Seq<WatchEvent>) -> Seq<WatchEventView> {
    v.map_values(|e: WatchEvent| e@)
}

/// The state between ticks: the occupied monitored ports of the last
/// successful tick, and whether no tick has succeeded yet.
pub struct WatchView {
    pub previous: Seq<u16>,
    pub first_tick: bool,
}

/// The event for a port that became occupied, from its first record.
pub open spec fn occupied_event(
    scan: Seq<PortInfoView>,
    previous: Seq<u16>,
    p: u16,
) -> Option<WatchEventView> {
    if previous.contains(p) {
        None
    } else {
        match first_on_port(scan, p) {
            Some(r) => Some(
                WatchEventView::PortOccupied { port: p, process_name: r.process_name, pid: r.pid },
            ),
            None => None,
        }
    }
}

pub open spec fn freed_event(current: Seq<u16>, p: u16) -> Option<WatchEventView> {
    if current.contains(p) {
        None
    } else {
        Some(WatchEventView::PortFreed { port: p })
    }
}

/// One tick: the next state and the events, from the state before and the
/// outcome of this tick's scan.
pub open spec fn watch_step(
    s: WatchView,
    monitored: Seq<u16>,
    scan: Result<Seq<PortInfoView>, ScanError>,
) -> (WatchView, Seq<WatchEventView>) {
    match scan {
        Err(e) => (s, seq![WatchEventView::ScanFailed { cause: e }]),
        Ok(records) => {
            let current = occupied_ports(monitored, records);
            let next = WatchView { previous: current, first_tick: false };
            if s.first_tick {
                (
                    next,
                    seq![
                        WatchEventView::InitialState {
                            occupied: current,
                            details: records.filter(|r: PortInfoView| monitored.contains(r.port)),
                        },
                    ],
                )
            } else {
                (
                    next,
                    current.filter_map(|p: u16| occupied_event(records, s.previous, p))
                        + s.previous.filter_map(|p: u16| freed_event(current, p)),
                )
            }
        },
    }
}

pub open spec fn scan_views(scan: Result<Vec<PortInfo>, ScanError>) -> Result<
    Seq<PortInfoView>,
    ScanError,
> {
    match scan {
        Ok(v) => Ok(record_views(v@)),
        Err(e) => Err(e),
    }
}

/// The watch loop's state across ticks.
pub struct WatchState {
    previous: Vec<u16>,
    first_tick: bool,
}

impl View for WatchState {
    type V = WatchView;

    closed spec fn view(&self) -> WatchView {
        WatchView { previous: self.previous@, first_tick: self.first_tick }
    }
}

fn occupied_of(monitored: &Vec<u16>, scan: &Vec<PortInfo>) -> (r: Vec<u16>)
    ensures
        r@ == occupied_ports(monitored@, record_views(scan@)),
{
    let ghost recs = record_views(scan@);
    let mut out: Vec<u16> = Vec::new();
    let mut i: usize = 0;
    assert(monitored@.take(0) =~= Seq::<u16>::empty());
    while i < monitored.len()
        invariant
            i <= monitored@.len(),
            recs == record_views(scan@),
            out@ == occupied_ports(monitored@.take(i as int), recs),
        decreases monitored@.len() - i,
    {
        let p = monitored[i];
        assert(monitored@.take(i + 1).drop_last() =~= monitored@.take(i as int));
        let found = match find_port(scan, p) {
            Some(_) => true,
            None => false,
        };
        proof {
            lemma_first_on_port_found(recs, p);
        }
        if found && !contains_port(&out, p) {
            out.push(p);
        }
        i += 1;
    }
    assert(monitored@.take(monitored@.len() as int) =~= monitored@);
    out
}

/// A record on `p` comes first exactly when some record is on `p`.
pub proof fn lemma_first_on_port_found(scan: Seq<PortInfoView>, p: u16)
    ensures
        first_on_port(scan, p) is Some <==> has_port(scan, p),
        first_on_port(scan, p) matches Some(r) ==> r.port == p,
    decreases scan.len(),
{
    if scan.len() > 0 {
        lemma_first_on_port_found(scan.drop_first(), p);
        if has_port(scan.drop_first(), p) {
            let i = choose|i: int| 0 <= i < scan.drop_first().len() && #[trigger] scan.drop_first()[i].port == p;
            assert(scan[i + 1].port == p);
        }
        if has_port(scan, p) && scan[0].port != p {
            let i = choose|i: int| 0 <= i < scan.len() && #[trigger] scan[i].port == p;
            assert(scan.drop_first()[i - 1].port == p);
        }
    }
}

fn details_of(monitored: &Vec<u16>, scan: &Vec<PortInfo>) -> (r: Vec<PortInfo>)
    ensures
        record_views(r@) == record_views(scan@).filter(|r: PortInfoView| monitored@.contains(r.port)),
{
    let ghost recs = record_views(scan@);
    let ghost pred = |r: PortInfoView| monitored@.contains(r.port);
    let mut out: Vec<PortInfo> = Vec::new();
    let mut i: usize = 0;
    assert(recs.take(0) =~= Seq::<PortInfoView>::empty());
    assert(Seq::<PortInfoView>::empty().filter(pred) =~= Seq::<PortInfoView>::empty()) by {
        reveal(Seq::filter);
    }
    while i < scan.len()
        invariant
            i <= scan@.len(),
            recs == record_views(scan@),
            pred == (|r: PortInfoView| monitored@.contains(r.port)),
            record_views(out@) == recs.take(i as int).filter(pred),
        decreases scan@.len() - i,
    {
        assert(recs.take(i + 1) =~= recs.take(i as int).push(recs[i as int]));
        proof {
            recs.take(i as int).lemma_filter_push(recs[i as int], pred);
        }
        if contains_port(monitored, scan[i].port) {
            let ghost before = out@;
            out.push(scan[i].duplicate());
            assert(record_views(out@) =~= record_views(before).push(recs[i as int]));
        }
        i += 1;
    }
    assert(recs.take(scan@.len() as int) =~= recs);
    out
}

impl WatchState {
    /// Before the first tick: nothing occupied, first tick pending.
    pub fn new() -> (r: WatchState)
        ensures
            r@ == (WatchView { previous: seq![], first_tick: true }),
    {
        WatchState { previous: Vec::new(), first_tick: true }
    }

    /// Whether no tick has succeeded yet.
    pub fn is_first_tick(&self) -> (r: bool)
        ensures
            r == self@.first_tick,
    {
        self.first_tick
    }

    /// The occupied monitored ports of the last successful tick.
    pub fn previous(&self) -> (r: &Vec<u16>)
        ensures
            r@ == self@.previous,
    {
        &self.previous
    }

    /// One tick of the watch loop over the `monitored` ports. A failed scan
    /// is reported and leaves the state as it was. The first successful tick
    /// reports the initial state; later ones report each monitored port that
    /// became occupied (with its process) and each that became free.
    pub fn on_tick(&mut self, monitored: &Vec<u16>, scan: Result<Vec<PortInfo>, ScanError>) -> (r: Vec<WatchEvent>)
        ensures
            (final(self)@, event_views(r@)) == watch_step(old(self)@, monitored@, scan_views(scan)),
    {
        match scan {
            Err(e) => {
                let mut ev: Vec<WatchEvent> = Vec::new();
                ev.push(WatchEvent::ScanFailed { cause: e });
                assert(event_views(ev@) =~= seq![WatchEventView::ScanFailed { cause: e }]);
                ev
            },
            Ok(records) => {
                let ghost recs = record_views(records@);
                let current = occupied_of(monitored, &records);
                let mut ev: Vec<WatchEvent> = Vec::new();
                if self.first_tick {
                    let details = details_of(monitored, &records);
                    let occupied = current.clone();
                    ev.push(WatchEvent::InitialState { occupied, details });
                    assert(event_views(ev@) =~= watch_step(old(self)@, monitored@, scan_views(Ok::<Vec<PortInfo>, ScanError>(records))).1);
                } else {
                    self.report_changes(&current, &records, &mut ev);
                }
                self.previous = current;
                self.first_tick = false;
                ev
            },
        }
    }

    fn report_changes(&self, current: &Vec<u16>, records: &Vec<PortInfo>, ev: &mut Vec<WatchEvent>)
        requires
            old(ev)@.len() == 0,
        ensures
            event_views(final(ev)@) == current@.filter_map(
                |p: u16| occupied_event(record_views(records@), self.previous@, p),
            ) + self.previous@.filter_map(|p: u16| freed_event(current@, p)),
    {
        let ghost recs = record_views(records@);
        let ghost f = |p: u16| occupied_event(recs, self.previous@, p);
        let ghost g = |p: u16| freed_event(current@, p);
        let mut i: usize = 0;
        assert(current@.take(0) =~= Seq::<u16>::empty());
        assert(event_views(ev@) =~= Seq::<WatchEventView>::empty());
        while i < current.len()
            invariant
                i <= current@.len(),
                recs == record_views(records@),
                f == (|p: u16| occupied_event(recs, self.previous@, p)),
                event_views(ev@) == current@.take(i as int).filter_map(f),
            decreases current@.len() - i,
        {
            let p = current[i];
            proof {
                current@.lemma_filter_map_take_succ(f, i as int);
            }
            if !contains_port(&self.previous, p) {
                match find_port(records, p) {
                    Some(r) => {
                        let ghost before = ev@;
                        ev.push(WatchEvent::PortOccupied { port: p, process_name: r.process_name, pid: r.pid });
                        assert(event_views(ev@) =~= event_views(before) + seq![f(p)->0]);
                    },
                    None => {},
                }
            }
            i += 1;
        }
        assert(current@.take(current@.len() as int) =~= current@);
        let ghost first_part = event_views(ev@);
        let mut j: usize = 0;
        assert(self.previous@.take(0) =~= Seq::<u16>::empty());
        while j < self.previous.len()
            invariant
                j <= self.previous@.len(),
                g == (|p: u16| freed_event(current@, p)),
                event_views(ev@) == first_part + self.previous@.take(j as int).filter_map(g),
            decreases self.previous@.len() - j,
        {
            let p = self.previous[j];
            proof {
                self.previous@.lemma_filter_map_take_succ(g, j as int);
            }
            if !contains_port(current, p) {
                let ghost before = ev@;
                ev.push(WatchEvent::PortFreed { port: p });
                assert(event_views(ev@) =~= event_views(before) + seq![g(p)->0]);
            }
            j += 1;
        }
        assert(self.previous@.take(self.previous@.len() as int) =~= self.previous@);
    }
}

/// A failed tick keeps the state, so the tick after it compares against the
/// last successful tick before the failure, not against an empty set.
pub proof fn law_failed_tick_keeps_state(
    s: WatchView,
    monitored: Seq<u16>,
    cause: ScanError,
    next: Result<Seq<PortInfoView>, ScanError>,
)
    ensures
        watch_step(s, monitored, Err(cause)).0 == s,
        watch_step(watch_step(s, monitored, Err(cause)).0, monitored, next) == watch_step(
            s,
            monitored,
            next,
        ),
{
}

pub open spec fn reports_occupied(e: WatchEventView, p: u16) -> bool {
    match e {
        WatchEventView::PortOccupied { port, .. } => port == p,
        _ => false,
    }
}

pub open spec fn reports_freed(e: WatchEventView, p: u16) -> bool {
    match e {
        WatchEventView::PortFreed { port } => port == p,
        _ => false,
    }
}

proof fn lemma_filter_map_has<A, B>(s: Seq<A>, f: spec_fn(A) -> Option<B>, i: int)
    requires
        0 <= i < s.len(),
        f(s[i]) is Some,
    ensures
        s.filter_map(f).contains(f(s[i])->0),
    decreases s.len(),
{
    if i < s.len() - 1 {
        lemma_filter_map_has(s.drop_last(), f, i);
        assert(s.drop_last()[i] == s[i]);
        let r = s.drop_last().filter_map(f);
        let k = choose|k: int| 0 <= k < r.len() && r[k] == f(s[i])->0;
        assert(s.filter_map(f)[k] == r[k]);
    } else {
        let r = s.filter_map(f);
        assert(r[r.len() - 1] == f(s[i])->0);
    }
}

proof fn lemma_occupied_has_port(monitored: Seq<u16>, scan: Seq<PortInfoView>, p: u16)
    requires
        occupied_ports(monitored, scan).contains(p),
    ensures
        has_port(scan, p),
        monitored.contains(p),
    decreases monitored.len(),
{
    let rest = occupied_ports(monitored.drop_last(), scan);
    if rest.contains(p) {
        lemma_occupied_has_port(monitored.drop_last(), scan, p);
        let i = choose|i: int| 0 <= i < monitored.drop_last().len() && monitored.drop_last()[i] == p;
        assert(monitored[i] == p);
    } else {
        assert(monitored.last() == p);
        assert(monitored[monitored.len() - 1] == p);
    }
}

/// After the first successful tick, a tick reports a port as newly occupied
/// exactly when it is occupied now and was not before, and as freed exactly
/// when it was occupied before and is not now; ports that did not change
/// are not reported.
pub proof fn law_tick_reports_exactly_the_changes(
    s: WatchView,
    monitored: Seq<u16>,
    records: Seq<PortInfoView>,
    p: u16,
)
    requires
        !s.first_tick,
    ensures
        ({
            let current = occupied_ports(monitored, records);
            let events = watch_step(s, monitored, Ok(records)).1;
            &&& (exists|i: int| 0 <= i < events.len() && reports_occupied(#[trigger] events[i], p))
                <==> (current.contains(p) && !s.previous.contains(p))
            &&& (exists|i: int| 0 <= i < events.len() && reports_freed(#[trigger] events[i], p))
                <==> (s.previous.contains(p) && !current.contains(p))
        }),
{
    let current = occupied_ports(monitored, records);
    let f = |q: u16| occupied_event(records, s.previous, q);
    let g = |q: u16| freed_event(current, q);
    let a = current.filter_map(f);
    let b = s.previous.filter_map(g);
    let events = watch_step(s, monitored, Ok(records)).1;
    assert(events == a + b);
    assert forall|i: int| 0 <= i < a.len() implies (#[trigger] a[i]) is PortOccupied && exists|t: u16|
        #[trigger] current.contains(t) && !s.previous.contains(t) && reports_occupied(a[i], t) by {
        assert(a.contains(a[i]));
        current.lemma_filter_map_contains(f, a[i]);
        let t = choose|t: u16| #[trigger] current.contains(t) && f(t) == Some(a[i]);
        assert(!s.previous.contains(t) && reports_occupied(a[i], t));
    }
    assert forall|i: int| 0 <= i < b.len() implies (#[trigger] b[i]) is PortFreed && exists|t: u16|
        #[trigger] s.previous.contains(t) && !current.contains(t) && reports_freed(b[i], t) by {
        assert(b.contains(b[i]));
        s.previous.lemma_filter_map_contains(g, b[i]);
        let t = choose|t: u16| #[trigger] s.previous.contains(t) && g(t) == Some(b[i]);
        assert(!current.contains(t) && reports_freed(b[i], t));
    }
    if exists|i: int| 0 <= i < events.len() && reports_occupied(#[trigger] events[i], p) {
        let i = choose|i: int| 0 <= i < events.len() && reports_occupied(#[trigger] events[i], p);
        if i >= a.len() {
            assert(events[i] == b[i - a.len()]);
        } else {
            assert(events[i] == a[i]);
            let t = choose|t: u16|
                #[trigger] current.contains(t) && !s.previous.contains(t) && reports_occupied(a[i], t);
        }
    }
    if current.contains(p) && !s.previous.contains(p) {
        lemma_occupied_has_port(monitored, records, p);
        crate::watch::lemma_first_on_port_found(records, p);
        let k = choose|k: int| 0 <= k < current.len() && current[k] == p;
        lemma_filter_map_has(current, f, k);
        let j = choose|j: int| 0 <= j < a.len() && a[j] == f(current[k])->0;
        assert(events[j] == a[j]);
        assert(reports_occupied(events[j], p));
    }
    if exists|i: int| 0 <= i < events.len() && reports_freed(#[trigger] events[i], p) {
        let i = choose|i: int| 0 <= i < events.len() && reports_freed(#[trigger] events[i], p);
        if i < a.len() {
            assert(events[i] == a[i]);
        } else {
            assert(events[i] == b[i - a.len()]);
            let t = choose|t: u16|
                #[trigger] s.previous.contains(t) && !current.contains(t) && reports_freed(b[i - a.len()], t);
        }
    }
    if s.previous.contains(p) && !current.contains(p) {
        let k = choose|k: int| 0 <= k < s.previous.len() && s.previous[k] == p;
        lemma_filter_map_has(s.previous, g, k);
        let j = choose|j: int| 0 <= j < b.len() && b[j] == g(s.previous[k])->0;
        assert(events[a.len() + j] == b[j]);
        assert(reports_freed(events[a.len() + j], p));
    }
}

} // verus!
