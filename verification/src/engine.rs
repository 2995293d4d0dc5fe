//! The tick-driven scheduler: it owns the graphs, keeps a per-tick
//! queue of pending gate re-evaluations keyed so that each gate is
//! queued at most once per tick, propagates produced outputs through
//! links and subcircuit boundaries, and collects host callbacks.

use vstd::prelude::*;

use crate::errors::CellError;
use crate::gate::{IoDir, PortParams};
use crate::graph::Graph;
use crate::link::LinkTarget;
use crate::operations::{CellEvent, GateParams};
use crate::sigmap::SigMap;
use crate::vector3vl::{str_eq, Vec3vl};

verus! {

/// One pending re-evaluation: which cell to run (by graph and gate
/// id) and the input snapshot captured when it was queued.
pub struct QueueEntry {
    pub graph_id: String,
    pub gate_id: String,
    pub sigs: SigMap,
}

/// A host callback collected by the scheduler; the embedding drains
/// and delivers them.
pub enum Callback {
    SendUpdates { tick: u32, pending: bool, updates: Vec<UpdateStruct> },
    TriggerMemoryUpdate {
        graph_id: String,
        gate_id: String,
        addr: u32,
        bits: u32,
        avec: Vec<u32>,
        bvec: Vec<u32>,
    },
    FsmCurrentStateChange { graph_id: String, gate_id: String, state: u32 },
    FsmNextTransChange { graph_id: String, gate_id: String, trans: Option<u32> },
    PostMonitorValue {
        monitor_id: u32,
        tick: u32,
        bits: u32,
        avec: Vec<u32>,
        bvec: Vec<u32>,
        stop_on_trigger: Option<bool>,
        one_shot: Option<bool>,
    },
    SendAlarmReached { alarm_id: u32, tick: u32, stop_on_alarm: bool },
    SendAck { reqid: u32, response: Option<u32> },
    UpdaterStop,
}

/// One gate's changed output ports, as reported to the host.
pub struct UpdateStruct {
    pub graph_id: String,
    pub gate_id: String,
    pub val: Vec<PortUpdate>,
}

/// One changed port with its wire-format signal.
pub struct PortUpdate {
    pub port: String,
    pub bits: u32,
    pub avec: Vec<u32>,
    pub bvec: Vec<u32>,
}

/// A watch on a gate's output port.
pub struct MonitorParams {
    pub trigger_values: Option<Vec<Vec3vl>>,
    pub stop_on_trigger: bool,
    pub one_shot: bool,
    pub synchronous: bool,
    pub graph_id: String,
    pub gate_id: String,
    pub port: String,
}

/// A tick-absolute scheduled host notification.
pub struct AlarmParams {
    pub tick: u32,
    pub stop_on_alarm: bool,
    pub synchronous: bool,
}

/// A pending signal write inside a propagation pass.
pub enum Task {
    SetOut { graph_id: String, gate_id: String, port: String, sig: Vec3vl },
    SetIn { graph_id: String, gate_id: String, port: String, sig: Vec3vl },
}

/// Two queue entries name different gates.
pub open spec fn distinct_keys(a: QueueEntry, b: QueueEntry) -> bool {
    a.graph_id@ != b.graph_id@ || a.gate_id@ != b.gate_id@
}

/// Port names with no repetition.
pub open spec fn ports_unique(s: Seq<String>) -> bool {
    forall|p: int, q: int| 0 <= p < q < s.len() ==> (#[trigger] s[p]@) != (#[trigger] s[q]@)
}

/// The graphs keep their identities and recorded links: only signals,
/// adjacency caches and gate state may differ.
pub open spec fn links_preserved(a: Seq<Graph>, b: Seq<Graph>) -> bool {
    b.len() == a.len() && forall|i: int|
        0 <= i < a.len() ==> (#[trigger] b[i]).id@ == a[i].id@ && b[i].links == a[i].links
}

/// The queue holds this gate at this tick, with these input signals.
pub open spec fn queue_has_snapshot(
    e: Engine,
    k: u32,
    gid: Seq<char>,
    gtid: Seq<char>,
    sigs: Map<Seq<char>, crate::vector3vl::Vec3vlV>,
) -> bool {
    exists|qi: int, j: int|
        0 <= qi < e.queue@.len() && (#[trigger] e.queue@[qi]).0 == k && 0 <= j
            < e.queue@[qi].1@.len() && (#[trigger] e.queue@[qi].1@[j]).graph_id@ == gid
            && e.queue@[qi].1@[j].gate_id@ == gtid && e.queue@[qi].1@[j].sigs@ == sigs
}

/// A batch holds each gate at most once, with well-formed snapshots.
pub open spec fn batch_wf(b: Seq<QueueEntry>) -> bool {
    &&& forall|i: int, j: int|
        0 <= i < j < b.len() ==> distinct_keys(#[trigger] b[i], #[trigger] b[j])
    &&& forall|i: int| 0 <= i < b.len() ==> (#[trigger] b[i]).sigs.wf() && b[i].sigs.values_wf()
}

/// The event-driven simulation engine.
pub struct Engine {
    pub interval: u32,
    pub tick: u32,
    pub graphs: Vec<Graph>,
    pub monitors: Vec<(u32, MonitorParams)>,
    pub monitor_checks: Vec<(u32, Vec3vl)>,
    pub alarms: Vec<(u32, AlarmParams)>,
    pub alarm_queue: Vec<(u32, Vec<u32>)>,
    pub queue: Vec<(u32, Vec<QueueEntry>)>,
    pub pq: Vec<u32>,
    pub to_update: Vec<(String, String, Vec<String>)>,
    pub callbacks: Vec<Callback>,
}

impl Engine {
    /// Graphs are well formed, every queued batch holds each gate at
    /// most once, the tick heap is strictly sorted, and batch ticks
    /// are unique.
    pub open spec fn wf(self) -> bool {
        &&& forall|i: int| 0 <= i < self.graphs@.len() ==> (#[trigger] self.graphs@[i]).wf()
        &&& forall|i: int| 0 <= i < self.queue@.len() ==> batch_wf((#[trigger] self.queue@[i]).1@)
        &&& forall|i: int, j: int|
            0 <= i < j < self.queue@.len() ==> (#[trigger] self.queue@[i]).0 != (
            #[trigger] self.queue@[j]).0
        &&& forall|i: int, j: int|
            0 <= i < j < self.pq@.len() ==> (#[trigger] self.pq@[i]) < (#[trigger] self.pq@[j])
        &&& forall|i: int, j: int|
            0 <= i < j < self.to_update@.len() ==> ((#[trigger] self.to_update@[i]).0@ != (
            #[trigger] self.to_update@[j]).0@ || self.to_update@[i].1@ != self.to_update@[j].1@)
        &&& forall|i: int|
            0 <= i < self.to_update@.len() ==> ports_unique((#[trigger] self.to_update@[i]).2@)
    }

    /// A fresh engine: tick zero, nothing queued, nothing observed.
    pub fn new() -> (r: Engine)
        ensures
            r.wf(),
            r.tick == 0,
            r.queue@.len() == 0,
            r.pq@.len() == 0,
            r.callbacks@.len() == 0,
    {
        Engine {
            interval: 10,
            tick: 0,
            graphs: Vec::new(),
            monitors: Vec::new(),
            monitor_checks: Vec::new(),
            alarms: Vec::new(),
            alarm_queue: Vec::new(),
            queue: Vec::new(),
            pq: Vec::new(),
            to_update: Vec::new(),
            callbacks: Vec::new(),
        }
    }

    /// Set the advisory updater cadence.
    pub fn interval(&mut self, ms: u32)
        requires
            old(self).wf(),
        ensures
            final(self).wf(),
            final(self).interval == ms,
    {
        self.interval = ms;
    }

    /// The advisory updater cadence.
    pub fn get_interval(&self) -> (r: u32)
        ensures
            r == self.interval,
    {
        self.interval
    }

    /// Drain the collected host callbacks.
    pub fn take_callbacks(&mut self) -> (r: Vec<Callback>)
        requires
            old(self).wf(),
        ensures
            final(self).wf(),
            final(self).callbacks@.len() == 0,
            r == old(self).callbacks,
    {
        let mut out: Vec<Callback> = Vec::new();
        core::mem::swap(&mut out, &mut self.callbacks);
        out
    }

    /// The position of a graph, by id.
    pub fn graph_index(&self, graph_id: &str) -> (r: Option<usize>)
        ensures
            r is Some ==> r->0 < self.graphs@.len() && self.graphs@[r->0 as int].id@ == graph_id@,
    {
        let n = self.graphs.len();
        let mut i: usize = 0;
        while i < n
            invariant
                i <= n,
                n == self.graphs@.len(),
            decreases n - i,
        {
            if str_eq(self.graphs[i].id.as_str(), graph_id) {
                return Some(i);
            }
            i = i + 1;
        }
        None
    }

    /// Create an empty graph under an id.
    pub fn add_graph(&mut self, id: String)
        requires
            old(self).wf(),
        ensures
            final(self).wf(),
    {
        self.graphs.push(Graph::new(id));
    }

    /// Put a tick into the heap, keeping it strictly sorted.
    fn pq_insert(&mut self, k: u32)
        requires
            old(self).wf(),
        ensures
            final(self).wf(),
            final(self).graphs == old(self).graphs,
            final(self).queue == old(self).queue,
            final(self).tick == old(self).tick,
            final(self).callbacks == old(self).callbacks,
            final(self).to_update == old(self).to_update,
            final(self).monitors == old(self).monitors,
            final(self).monitor_checks == old(self).monitor_checks,
            final(self).alarms == old(self).alarms,
            final(self).alarm_queue == old(self).alarm_queue,
            final(self).pq@.contains(k),
    {
        let n = self.pq.len();
        let mut i: usize = 0;
        while i < n
            invariant
                i <= n,
                n == self.pq@.len(),
                self.wf(),
                forall|j: int| 0 <= j < i ==> (#[trigger] self.pq@[j]) < k,
                self.graphs == old(self).graphs,
                self.queue == old(self).queue,
                self.tick == old(self).tick,
                self.callbacks == old(self).callbacks,
                self.to_update == old(self).to_update,
                self.monitors == old(self).monitors,
                self.monitor_checks == old(self).monitor_checks,
                self.alarms == old(self).alarms,
                self.alarm_queue == old(self).alarm_queue,
            decreases n - i,
        {
            if self.pq[i] == k {
                proof {
                    assert(self.pq@[i as int] == k);
                }
                return ;
            }
            if self.pq[i] > k {
                self.pq.insert(i, k);
                proof {
                    assert(self.pq@[i as int] == k);
                    assert forall|a: int, b: int|
                        0 <= a < b < self.pq@.len() implies (#[trigger] self.pq@[a]) < (
                    #[trigger] self.pq@[b]) by {
                        if a < i && b == i {
                        } else if a == i && b > i {
                        }
                    }
                }
                return ;
            }
            i = i + 1;
        }
        self.pq.push(k);
        proof {
            assert(self.pq@[self.pq@.len() - 1] == k);
            assert forall|a: int, b: int|
                0 <= a < b < self.pq@.len() implies (#[trigger] self.pq@[a]) < (
            #[trigger] self.pq@[b]) by {
                if b == self.pq@.len() - 1 {
                    assert(self.pq@[a] < k);
                }
            }
        }
    }

    /// Queue a gate for re-evaluation at `tick + propagation` with a
    /// snapshot of its current inputs.  A gate already queued at that
    /// tick keeps one entry: the snapshot is replaced.
    #[verifier::loop_isolation(false)]
    pub fn enqueue(&mut self, graph_id: String, gate_id: String) -> (r: Result<(), CellError>)
        requires
            old(self).wf(),
        ensures
            final(self).wf(),
            final(self).tick == old(self).tick,
            final(self).callbacks == old(self).callbacks,
            final(self).graphs == old(self).graphs,
            final(self).to_update == old(self).to_update,
            final(self).monitors == old(self).monitors,
            final(self).monitor_checks == old(self).monitor_checks,
            final(self).alarms == old(self).alarms,
            final(self).alarm_queue == old(self).alarm_queue,
            r is Err ==> (r->Err_0 == CellError::LookupMiss && *final(self) == *old(self)),
            r is Ok ==> exists|gi: int|
                0 <= gi < old(self).graphs@.len() && (#[trigger] old(self).graphs@[gi]).id@
                    == graph_id@ && exists|gx: int|
                    0 <= gx < old(self).graphs@[gi].gates@.len() && (#[trigger] old(self).graphs@[gi].gates@[gx]).id@ == gate_id@ && {
                        let k = vstd::wrapping::u32_specs::wrapping_add(
                            old(self).tick,
                            old(self).graphs@[gi].gates@[gx].propagation,
                        );
                        &&& queue_has_snapshot(
                            *final(self),
                            k,
                            graph_id@,
                            gate_id@,
                            old(self).graphs@[gi].gates@[gx].in_vals@,
                        )
                        &&& (final(self).pq@.contains(k) || exists|qi: int|
                            0 <= qi < old(self).queue@.len() && (#[trigger] old(self).queue@[qi]).0 == k)
                    },
    {
        let gi = match self.graph_index(graph_id.as_str()) {
            Some(i) => i,
            None => {
                return Err(CellError::LookupMiss);
            },
        };
        let gidx = match self.graphs[gi].gate_index(gate_id.as_str()) {
            Some(i) => i,
            None => {
                return Err(CellError::LookupMiss);
            },
        };
        let prop = self.graphs[gi].gates[gidx].get_propagation();
        proof {
            assert(self.graphs@[gi as int].wf());
            assert(self.graphs@[gi as int].gates@[gidx as int].wf());
        }
        let sigs = self.graphs[gi].gates[gidx].get_inputs();
        let k = self.tick.wrapping_add(prop);
        let ghost gidv = graph_id@;
        let ghost gtidv = gate_id@;
        let ghost sigsv = sigs@;
        let entry = QueueEntry { graph_id, gate_id, sigs };
        // find the batch for tick k
        let qn = self.queue.len();
        let mut qi: usize = 0;
        let mut found: Option<usize> = None;
        while qi < qn
            invariant
                qi <= qn,
                qn == self.queue@.len(),
                found is Some ==> found->0 < qn && self.queue@[found->0 as int].0 == k,
                found is None ==> forall|m: int| 0 <= m < qi ==> (#[trigger] self.queue@[m]).0 != k,
            decreases qn - qi,
        {
            if found.is_none() && self.queue[qi].0 == k {
                found = Some(qi);
            }
            qi = qi + 1;
        }
        match found {
            Some(bi) => {
                let (bk, mut batch) = self.queue.remove(bi);
                let bn = batch.len();
                let mut j: usize = 0;
                let mut replaced = false;
                while j < bn
                    invariant
                        j <= bn,
                        bn == batch@.len(),
                        batch_wf(batch@),
                        entry.sigs.wf(),
                        entry.sigs.values_wf(),
                        !replaced ==> forall|m: int|
                            0 <= m < j ==> distinct_keys(#[trigger] batch@[m], entry),
                        replaced ==> batch_wf(batch@) && batch@.len() == bn,
                        replaced ==> forall|m: int|
                            0 <= m < batch@.len() ==> (#[trigger] batch@[m]).sigs.wf()
                                && batch@[m].sigs.values_wf(),
                        replaced ==> exists|m: int|
                            0 <= m < batch@.len() && (#[trigger] batch@[m]).graph_id@ == gidv
                                && batch@[m].gate_id@ == gtidv && batch@[m].sigs@ == sigsv,
                    decreases bn - j,
                {
                    if !replaced && str_eq(batch[j].graph_id.as_str(), entry.graph_id.as_str())
                        && str_eq(batch[j].gate_id.as_str(), entry.gate_id.as_str()) {
                        let ghost prev = batch@;
                        let old_e = batch.remove(j);
                        let new_e = QueueEntry {
                            graph_id: old_e.graph_id,
                            gate_id: old_e.gate_id,
                            sigs: entry.sigs.clone(),
                        };
                        batch.insert(j, new_e);
                        proof {
                            assert(batch@.len() == prev.len());
                            assert forall|a: int, b: int|
                                0 <= a < b < batch@.len() implies distinct_keys(
                                #[trigger] batch@[a],
                                #[trigger] batch@[b],
                            ) by {
                                assert(batch@[a].graph_id@ == prev[a].graph_id@ && batch@[a].gate_id@
                                    == prev[a].gate_id@);
                                assert(batch@[b].graph_id@ == prev[b].graph_id@ && batch@[b].gate_id@
                                    == prev[b].gate_id@);
                            }
                            assert(batch@[j as int].graph_id@ == gidv && batch@[j as int].gate_id@
                                == gtidv && batch@[j as int].sigs@ == sigsv);
                        }
                        replaced = true;
                    }
                    j = j + 1;
                }
                if !replaced {
                    batch.push(entry);
                    proof {
                        assert forall|a: int, b: int|
                            0 <= a < b < batch@.len() implies distinct_keys(
                            #[trigger] batch@[a],
                            #[trigger] batch@[b],
                        ) by {
                            if b == batch@.len() - 1 {
                                assert(distinct_keys(batch@[a], batch@[b]));
                            }
                        }
                        assert(batch@.last().graph_id@ == gidv && batch@.last().gate_id@ == gtidv
                            && batch@.last().sigs@ == sigsv);
                    }
                }
                let ghost batch_snap = batch@;
                self.queue.insert(bi, (bk, batch));
                proof {
                    assert forall|a: int, b: int|
                        0 <= a < b < self.queue@.len() implies (#[trigger] self.queue@[a]).0 != (
                    #[trigger] self.queue@[b]).0 by {
                    }
                    assert(self.queue@[bi as int].0 == k && self.queue@[bi as int].1@
                        == batch_snap);
                    let m = choose|m: int|
                        0 <= m < batch_snap.len() && (#[trigger] batch_snap[m]).graph_id@ == gidv
                            && batch_snap[m].gate_id@ == gtidv && batch_snap[m].sigs@ == sigsv;
                    assert(queue_has_snapshot(*self, k, gidv, gtidv, sigsv));
                    assert(self.queue@[bi as int].0 == old(self).queue@[bi as int].0);
                }
            },
            None => {
                let mut batch: Vec<QueueEntry> = Vec::new();
                batch.push(entry);
                self.queue.push((k, batch));
                proof {
                    assert forall|a: int, b: int|
                        0 <= a < b < self.queue@.len() implies (#[trigger] self.queue@[a]).0 != (
                    #[trigger] self.queue@[b]).0 by {
                        if b == self.queue@.len() - 1 {
                            assert(self.queue@[a].0 != k);
                        }
                    }
                    let qi = self.queue@.len() - 1;
                    assert(self.queue@[qi].0 == k && self.queue@[qi].1@[0].graph_id@ == gidv
                        && self.queue@[qi].1@[0].gate_id@ == gtidv && self.queue@[qi].1@[0].sigs@
                        == sigsv);
                    assert(queue_has_snapshot(*self, k, gidv, gtidv, sigsv));
                }
                self.pq_insert(k);
                proof {
                    assert(queue_has_snapshot(*self, k, gidv, gtidv, sigsv));
                }
            },
        }
        proof {
            let og = old(self).graphs@;
            assert(og[gi as int].id@ == gidv);
            assert(og[gi as int].gates@[gidx as int].id@ == gtidv);
            assert(og[gi as int].gates@[gidx as int].in_vals@ == sigsv);
            assert(k == vstd::wrapping::u32_specs::wrapping_add(
                old(self).tick,
                og[gi as int].gates@[gidx as int].propagation,
            ));
        }
        Ok(())
    }

    /// Record a changed output port for the next update flush (only
    /// for observed graphs); a port already recorded for its gate is
    /// kept once.
    fn mark_update(&mut self, graph_id: &str, gate_id: &str, port: &str)
        requires
            old(self).wf(),
        ensures
            final(self).wf(),
            final(self).graphs == old(self).graphs,
            final(self).queue == old(self).queue,
            final(self).pq == old(self).pq,
            final(self).tick == old(self).tick,
            final(self).callbacks == old(self).callbacks,
    {
        let observed = match self.graph_index(graph_id) {
            Some(gi) => self.graphs[gi].is_observed(),
            None => false,
        };
        if !observed {
            return ;
        }
        let n = self.to_update.len();
        let ghost prev = self.to_update@;
        let mut i: usize = 0;
        while i < n
            invariant
                i <= n,
                n == self.to_update@.len(),
                self.wf(),
                self.to_update@ == prev,
                forall|m: int|
                    0 <= m < i ==> !((#[trigger] prev[m]).0@ == graph_id@ && prev[m].1@
                        == gate_id@),
                self.graphs == old(self).graphs,
                self.queue == old(self).queue,
                self.pq == old(self).pq,
                self.tick == old(self).tick,
                self.callbacks == old(self).callbacks,
            decreases n - i,
        {
            if str_eq(self.to_update[i].0.as_str(), graph_id) && str_eq(
                self.to_update[i].1.as_str(),
                gate_id,
            ) {
                let mut rec = self.to_update.remove(i);
                let ghost rec0 = rec;
                let pn = rec.2.len();
                let mut p: usize = 0;
                let mut present = false;
                while p < pn
                    invariant
                        p <= pn,
                        pn == rec.2@.len(),
                        rec == rec0,
                        !present ==> forall|m: int| 0 <= m < p ==> (#[trigger] rec.2@[m]@) != port@,
                    decreases pn - p,
                {
                    if str_eq(rec.2[p].as_str(), port) {
                        present = true;
                    }
                    p = p + 1;
                }
                if !present {
                    rec.2.push(port.to_owned());
                    proof {
                        assert(ports_unique(prev[i as int].2@));
                        assert forall|a: int, b: int|
                            0 <= a < b < rec.2@.len() implies (#[trigger] rec.2@[a]@) != (
                        #[trigger] rec.2@[b]@) by {
                            if b == rec.2@.len() - 1 {
                                assert(rec.2@[a]@ != port@);
                            }
                        }
                    }
                }
                self.to_update.insert(i, rec);
                proof {
                    assert forall|a: int, b: int|
                        0 <= a < b < self.to_update@.len() implies ((
                    #[trigger] self.to_update@[a]).0@ != (#[trigger] self.to_update@[b]).0@
                        || self.to_update@[a].1@ != self.to_update@[b].1@) by {
                        assert(self.to_update@[a].0@ == prev[a].0@ && self.to_update@[a].1@
                            == prev[a].1@);
                        assert(self.to_update@[b].0@ == prev[b].0@ && self.to_update@[b].1@
                            == prev[b].1@);
                    }
                }
                return ;
            }
            i = i + 1;
        }
        let mut ports: Vec<String> = Vec::new();
        ports.push(port.to_owned());
        self.to_update.push((graph_id.to_owned(), gate_id.to_owned(), ports));
        proof {
            assert forall|a: int, b: int|
                0 <= a < b < self.to_update@.len() implies ((#[trigger] self.to_update@[a]).0@
                != (#[trigger] self.to_update@[b]).0@ || self.to_update@[a].1@
                != self.to_update@[b].1@) by {
                if b == self.to_update@.len() - 1 {
                    assert(!(prev[a].0@ == graph_id@ && prev[a].1@ == gate_id@));
                }
            }
        }
    }

    /// Apply a batch of signal writes and everything they cascade
    /// into: an output write that changes a port's value fans out to
    /// the linked inputs, records the port for the update flush and
    /// for monitors; an input write queues its cell again (or crosses a
    /// subcircuit boundary).  Writes of an unchanged value stop there.
    fn process_tasks(&mut self, initial: Vec<Task>) -> (r: Result<(), CellError>)
        requires
            old(self).wf(),
        ensures
            final(self).wf(),
            final(self).tick == old(self).tick,
            links_preserved(old(self).graphs@, final(self).graphs@),
    {
        let mut tasks = initial;
        let mut fuel: u64 = 0xffff_ffff_ffffu64;
        while tasks.len() > 0 && fuel > 0
            invariant
                self.wf(),
                self.tick == old(self).tick,
                links_preserved(old(self).graphs@, self.graphs@),
            decreases fuel,
        {
            fuel = fuel - 1;
            let t = match tasks.pop() {
                Some(t) => t,
                None => {
                    return Ok(());
                },
            };
            match t {
                Task::SetOut { graph_id, gate_id, port, sig } => {
                    let gi = match self.graph_index(graph_id.as_str()) {
                        Some(i) => i,
                        None => {
                            return Err(CellError::LookupMiss);
                        },
                    };
                    let gidx = match self.graphs[gi].gate_index(gate_id.as_str()) {
                        Some(i) => i,
                        None => {
                            return Err(CellError::LookupMiss);
                        },
                    };
                    proof {
                        assert(self.graphs@[gi as int].wf());
                        assert(self.graphs@[gi as int].gates@[gidx as int].wf());
                    }
                    let old_sig = match self.graphs[gi].gates[gidx].get_output(port.as_str()) {
                        Ok(v) => v,
                        Err(e) => {
                            return Err(e);
                        },
                    };
                    if !sig.well_formed_exec() {
                        return Err(CellError::UnsupportedEncoding);
                    }
                    // compare normalized: junk bits must not retrigger
                    let mut old_n = old_sig.clone();
                    old_n.normalize();
                    let mut new_n = sig.clone();
                    new_n.normalize();
                    if old_n == new_n {
                        continue ;
                    }
                    let ghost g0 = self.graphs@;
                    let mut graph = self.graphs.remove(gi);
                    let mut gate = graph.gates.remove(gidx);
                    gate.set_output(port.clone(), sig.clone());
                    graph.gates.insert(gidx, gate);
                    self.graphs.insert(gi, graph);
                    proof {
                        assert forall|ii: int|
                            0 <= ii < self.graphs@.len() implies (#[trigger] self.graphs@[ii]).wf()
                        by {
                        }
                        assert forall|ii: int|
                            0 <= ii < self.graphs@.len() implies ((#[trigger] self.graphs@[ii]).id@
                            == g0[ii].id@ && self.graphs@[ii].links == g0[ii].links) by {
                            if ii != gi {
                                assert(self.graphs@[ii] == g0[ii]);
                            }
                        }
                    }
                    self.mark_update(graph_id.as_str(), gate_id.as_str(), port.as_str());
                    // monitors see the new value
                    let mons = self.graphs[gi].gates[gidx].get_monitors(port.as_str());
                    let mn = mons.len();
                    let mut mi: usize = 0;
                    while mi < mn
                        invariant
                            mi <= mn,
                            mn == mons@.len(),
                            self.wf(),
                            self.tick == old(self).tick,
                            links_preserved(old(self).graphs@, self.graphs@),
                            sig.well_formed(),
                            gi < self.graphs@.len(),
                            gidx < self.graphs@[gi as int].gates@.len(),
                        decreases mn - mi,
                    {
                        self.record_monitor_check(mons[mi], &sig);
                        mi = mi + 1;
                    }
                    // fan out to linked inputs
                    let targets = match self.graphs[gi].gates[gidx].get_targets(port.as_str()) {
                        Ok(t) => t,
                        Err(_) => Vec::new(),
                    };
                    let tn = targets.len();
                    let mut ti: usize = 0;
                    while ti < tn
                        invariant
                            ti <= tn,
                            tn == targets@.len(),
                            self.wf(),
                            self.tick == old(self).tick,
                        decreases tn - ti,
                    {
                        tasks.push(
                            Task::SetIn {
                                graph_id: graph_id.clone(),
                                gate_id: targets[ti].id.clone(),
                                port: targets[ti].port.clone(),
                                sig: sig.clone(),
                            },
                        );
                        ti = ti + 1;
                    }
                },
                Task::SetIn { graph_id, gate_id, port, sig } => {
                    let gi = match self.graph_index(graph_id.as_str()) {
                        Some(i) => i,
                        None => {
                            return Err(CellError::LookupMiss);
                        },
                    };
                    let gidx = match self.graphs[gi].gate_index(gate_id.as_str()) {
                        Some(i) => i,
                        None => {
                            return Err(CellError::LookupMiss);
                        },
                    };
                    proof {
                        assert(self.graphs@[gi as int].wf());
                        assert(self.graphs@[gi as int].gates@[gidx as int].wf());
                    }
                    let old_sig = match self.graphs[gi].gates[gidx].get_input(port.as_str()) {
                        Ok(v) => v,
                        Err(e) => {
                            return Err(e);
                        },
                    };
                    if !sig.well_formed_exec() {
                        return Err(CellError::UnsupportedEncoding);
                    }
                    // compare normalized: junk bits must not retrigger
                    let mut old_n = old_sig.clone();
                    old_n.normalize();
                    let mut new_n = sig.clone();
                    new_n.normalize();
                    if old_n == new_n {
                        continue ;
                    }
                    let ghost g0 = self.graphs@;
                    let mut graph = self.graphs.remove(gi);
                    let mut gate = graph.gates.remove(gidx);
                    gate.set_input(port.clone(), sig.clone());
                    let is_sub = gate.is_subcircuit();
                    let is_out = gate.is_output();
                    graph.gates.insert(gidx, gate);
                    self.graphs.insert(gi, graph);
                    proof {
                        assert forall|ii: int|
                            0 <= ii < self.graphs@.len() implies (#[trigger] self.graphs@[ii]).wf()
                        by {
                        }
                        assert forall|ii: int|
                            0 <= ii < self.graphs@.len() implies ((#[trigger] self.graphs@[ii]).id@
                            == g0[ii].id@ && self.graphs@[ii].links == g0[ii].links) by {
                            if ii != gi {
                                assert(self.graphs@[ii] == g0[ii]);
                            }
                        }
                    }
                    if is_sub {
                        let sub = match self.graphs[gi].gates[gidx].get_subgraph() {
                            Ok(s) => s,
                            Err(e) => {
                                return Err(e);
                            },
                        };
                        let io = match self.graphs[gi].gates[gidx].get_subgraph_iomap_port(
                            port.as_str(),
                        ) {
                            Ok(io) => io,
                            Err(e) => {
                                return Err(e);
                            },
                        };
                        tasks.push(
                            Task::SetOut {
                                graph_id: sub,
                                gate_id: io,
                                port: "out".to_owned(),
                                sig,
                            },
                        );
                    } else if is_out {
                        match self.graphs[gi].subcircuit() {
                            Some((host_graph, host_gate)) => {
                                let net = match self.graphs[gi].gates[gidx].get_subcir_net() {
                                    Ok(n) => n,
                                    Err(e) => {
                                        return Err(e);
                                    },
                                };
                                tasks.push(
                                    Task::SetOut {
                                        graph_id: host_graph,
                                        gate_id: host_gate,
                                        port: net,
                                        sig,
                                    },
                                );
                            },
                            None => {},
                        }
                    } else {
                        match self.enqueue(graph_id, gate_id) {
                            Ok(_) => {},
                            Err(e) => {
                                return Err(e);
                            },
                        }
                    }
                },
            }
        }
        Ok(())
    }

    /// Remember the latest value a monitored port took since the last
    /// flush (one slot per monitor).
    fn record_monitor_check(&mut self, monitor_id: u32, sig: &Vec3vl)
        requires
            old(self).wf(),
            sig.well_formed(),
        ensures
            final(self).wf(),
            final(self).graphs == old(self).graphs,
            final(self).queue == old(self).queue,
            final(self).pq == old(self).pq,
            final(self).tick == old(self).tick,
            final(self).callbacks == old(self).callbacks,
    {
        let n = self.monitor_checks.len();
        let mut i: usize = 0;
        while i < n
            invariant
                i <= n,
                n == self.monitor_checks@.len(),
                self.wf(),
                sig.well_formed(),
                self.graphs == old(self).graphs,
                self.queue == old(self).queue,
                self.pq == old(self).pq,
                self.tick == old(self).tick,
                self.callbacks == old(self).callbacks,
            decreases n - i,
        {
            if self.monitor_checks[i].0 == monitor_id {
                let _ = self.monitor_checks.remove(i);
                self.monitor_checks.insert(i, (monitor_id, sig.clone()));
                return ;
            }
            i = i + 1;
        }
        self.monitor_checks.push((monitor_id, sig.clone()));
    }
}

impl Vec3vl {
    /// Whether the word arrays have exactly the storage the width asks
    /// for, as executable code.
    pub fn well_formed_exec(&self) -> (r: bool)
        ensures
            r == self.well_formed(),
    {
        let words = Self::word_len(self.bits);
        self.avec.len() == words && self.bvec.len() == words
    }
}


impl Engine {
    /// Advance one tick: when the earliest queued work is due now, run
    /// it; either way the tick counter moves forward by exactly one
    /// (wrapping).  Returns how many gates were evaluated.
    pub fn update_gates_priv(&mut self) -> (r: Result<u32, CellError>)
        requires
            old(self).wf(),
        ensures
            final(self).wf(),
            r is Ok ==> final(self).tick == vstd::wrapping::u32_specs::wrapping_add(
                old(self).tick,
                1,
            ),
            (old(self).pq@.len() == 0 || old(self).pq@[0] != old(self).tick) ==> {
                &&& r == Result::<u32, CellError>::Ok(0u32)
                &&& final(self).tick == vstd::wrapping::u32_specs::wrapping_add(old(self).tick, 1)
                &&& final(self).graphs == old(self).graphs
                &&& final(self).queue == old(self).queue
                &&& final(self).pq == old(self).pq
                &&& final(self).to_update == old(self).to_update
                &&& final(self).callbacks == old(self).callbacks
                &&& final(self).monitors == old(self).monitors
                &&& final(self).monitor_checks == old(self).monitor_checks
                &&& final(self).alarms == old(self).alarms
                &&& final(self).alarm_queue == old(self).alarm_queue
            },
            (old(self).pq@.len() > 0 && old(self).pq@[0] == old(self).tick && r is Ok)
                ==> final(self).tick == vstd::wrapping::u32_specs::wrapping_add(
                old(self).pq@[0],
                1,
            ),
    {
        if self.pq.len() > 0 && self.pq[0] == self.tick {
            self.update_gates_next_priv()
        } else {
            self.tick = self.tick.wrapping_add(1);
            Ok(0)
        }
    }

    /// Jump to the earliest queued tick and run everything queued
    /// there (work re-queued at the same tick included); afterwards
    /// the tick counter is one past the processed tick.  Fails when
    /// nothing is queued.
    pub fn update_gates_next_priv(&mut self) -> (r: Result<u32, CellError>)
        requires
            old(self).wf(),
        ensures
            final(self).wf(),
            old(self).pq@.len() == 0 ==> (r == Result::<u32, CellError>::Err(CellError::LookupMiss)
                && *final(self) == *old(self)),
            r is Ok ==> old(self).pq@.len() > 0 && final(self).tick
                == vstd::wrapping::u32_specs::wrapping_add(old(self).pq@[0], 1),
    {
        if self.pq.len() == 0 {
            return Err(CellError::LookupMiss);
        }
        let k = self.pq.remove(0);
        self.tick = k;
        let mut count: u32 = 0;
        let mut fuel: u64 = 0xffff_ffffu64;
        while fuel > 0
            invariant
                self.wf(),
                self.tick == k,
                old(self).pq@.len() > 0,
            decreases fuel,
        {
            fuel = fuel - 1;
            // take the batch queued for this tick, if any is left
            let qn = self.queue.len();
            let mut qi: usize = 0;
            let mut found: Option<usize> = None;
            while qi < qn
                invariant
                    qi <= qn,
                    qn == self.queue@.len(),
                    self.wf(),
                    found is Some ==> found->0 < qn,
                decreases qn - qi,
            {
                if found.is_none() && self.queue[qi].0 == k {
                    found = Some(qi);
                }
                qi = qi + 1;
            }
            let bi = match found {
                Some(i) => i,
                None => {
                    break ;
                },
            };
            let (_, batch) = self.queue.remove(bi);
            let bn = batch.len();
            let mut e: usize = 0;
            while e < bn
                invariant
                    e <= bn,
                    bn == batch@.len(),
                    batch_wf(batch@),
                    self.wf(),
                    self.tick == k,
                    old(self).pq@.len() > 0,
                decreases bn - e,
            {
                let entry = &batch[e];
                let gi = match self.graph_index(entry.graph_id.as_str()) {
                    Some(i) => i,
                    None => {
                        e = e + 1;
                        continue ;
                    },
                };
                let gidx = match self.graphs[gi].gate_index(entry.gate_id.as_str()) {
                    Some(i) => i,
                    None => {
                        e = e + 1;
                        continue ;
                    },
                };
                let mut graph = self.graphs.remove(gi);
                let mut gate = graph.gates.remove(gidx);
                let result = gate.do_operation(&entry.sigs);
                graph.gates.insert(gidx, gate);
                self.graphs.insert(gi, graph);
                proof {
                    assert forall|ii: int|
                        0 <= ii < self.graphs@.len() implies (#[trigger] self.graphs@[ii]).wf() by {
                    }
                }
                let rv = match result {
                    Ok(rv) => rv,
                    Err(err) => {
                        return Err(err);
                    },
                };
                if rv.is_clock() {
                    let _ = self.enqueue(entry.graph_id.clone(), entry.gate_id.clone());
                }
                self.emit_cell_events(entry.graph_id.as_str(), entry.gate_id.as_str(), &rv.events);
                let mut tasks: Vec<Task> = Vec::new();
                match &rv.out {
                    Some(sig) => {
                        tasks.push(
                            Task::SetOut {
                                graph_id: entry.graph_id.clone(),
                                gate_id: entry.gate_id.clone(),
                                port: "out".to_owned(),
                                sig: sig.clone(),
                            },
                        );
                    },
                    None => {},
                }
                let on = rv.others.len();
                let mut oi: usize = 0;
                while oi < on
                    invariant
                        oi <= on,
                        on == rv.others.entries@.len(),
                        self.wf(),
                        self.tick == k,
                    decreases on - oi,
                {
                    tasks.push(
                        Task::SetOut {
                            graph_id: entry.graph_id.clone(),
                            gate_id: entry.gate_id.clone(),
                            port: rv.others.key_at(oi).clone(),
                            sig: rv.others.val_at(oi).clone(),
                        },
                    );
                    oi = oi + 1;
                }
                match self.process_tasks(tasks) {
                    Ok(_) => {},
                    Err(err) => {
                        return Err(err);
                    },
                }
                if count < u32::MAX {
                    count = count + 1;
                }
                e = e + 1;
            }
        }
        // drop this tick from the heap if re-queued work put it back
        let pn = self.pq.len();
        let mut pi: usize = 0;
        let mut again: Option<usize> = None;
        while pi < pn
            invariant
                pi <= pn,
                pn == self.pq@.len(),
                self.wf(),
                self.tick == k,
                again is Some ==> again->0 < pn,
            decreases pn - pi,
        {
            if again.is_none() && self.pq[pi] == k {
                again = Some(pi);
            }
            pi = pi + 1;
        }
        match again {
            Some(pi2) => {
                let _ = self.pq.remove(pi2);
                proof {
                    assert forall|a: int, b: int|
                        0 <= a < b < self.pq@.len() implies (#[trigger] self.pq@[a]) < (
                    #[trigger] self.pq@[b]) by {
                    }
                }
            },
            None => {},
        }
        self.tick = k.wrapping_add(1);
        Ok(count)
    }

    /// Turn the events a cell raised into host callbacks.
    fn emit_cell_events(&mut self, graph_id: &str, gate_id: &str, events: &Vec<CellEvent>)
        requires
            old(self).wf(),
        ensures
            final(self).wf(),
            final(self).graphs == old(self).graphs,
            final(self).queue == old(self).queue,
            final(self).pq == old(self).pq,
            final(self).tick == old(self).tick,
    {
        let n = events.len();
        let mut i: usize = 0;
        while i < n
            invariant
                i <= n,
                n == events@.len(),
                self.wf(),
                self.graphs == old(self).graphs,
                self.queue == old(self).queue,
                self.pq == old(self).pq,
                self.tick == old(self).tick,
            decreases n - i,
        {
            match &events[i] {
                CellEvent::MemoryUpdate { addr, bits, avec, bvec } => {
                    self.callbacks.push(
                        Callback::TriggerMemoryUpdate {
                            graph_id: graph_id.to_owned(),
                            gate_id: gate_id.to_owned(),
                            addr: *addr,
                            bits: *bits,
                            avec: crate::vector3vl::clone_words(avec),
                            bvec: crate::vector3vl::clone_words(bvec),
                        },
                    );
                },
                CellEvent::FsmCurrentState { state } => {
                    self.callbacks.push(
                        Callback::FsmCurrentStateChange {
                            graph_id: graph_id.to_owned(),
                            gate_id: gate_id.to_owned(),
                            state: *state,
                        },
                    );
                },
                CellEvent::FsmNextTrans { trans } => {
                    self.callbacks.push(
                        Callback::FsmNextTransChange {
                            graph_id: graph_id.to_owned(),
                            gate_id: gate_id.to_owned(),
                            trans: *trans,
                        },
                    );
                },
            }
            i = i + 1;
        }
    }

    /// Host command: advance one tick, optionally flush updates, check
    /// monitors and alarms, acknowledge.
    pub fn update_gates(&mut self, reqid: u32, send_updates: bool) -> (r: Result<(), CellError>)
        requires
            old(self).wf(),
        ensures
            final(self).wf(),
            r is Ok ==> final(self).tick == vstd::wrapping::u32_specs::wrapping_add(
                old(self).tick,
                1,
            ),
            r is Ok ==> (final(self).callbacks@.len() > 0 && final(self).callbacks@.last()
                is SendAck && final(self).callbacks@.last()->SendAck_reqid == reqid),
    {
        let count = match self.update_gates_priv() {
            Ok(c) => c,
            Err(e) => {
                return Err(e);
            },
        };
        if send_updates {
            self.send_updates_priv();
        }
        match self.post_monitors() {
            Ok(_) => {},
            Err(e) => {
                return Err(e);
            },
        }
        self.send_ack(reqid, Some(count));
        Ok(())
    }

    /// Host command: jump to the next queued tick, optionally flush
    /// updates, check monitors and alarms, acknowledge.
    pub fn update_gates_next(&mut self, reqid: u32, send_updates: bool) -> (r: Result<
        (),
        CellError,
    >)
        requires
            old(self).wf(),
        ensures
            final(self).wf(),
            old(self).pq@.len() == 0 ==> r is Err,
            r is Ok ==> (old(self).pq@.len() > 0 && final(self).tick
                == vstd::wrapping::u32_specs::wrapping_add(old(self).pq@[0], 1)),
            r is Ok ==> (final(self).callbacks@.len() > 0 && final(self).callbacks@.last()
                is SendAck && final(self).callbacks@.last()->SendAck_reqid == reqid),
    {
        let count = match self.update_gates_next_priv() {
            Ok(c) => c,
            Err(e) => {
                return Err(e);
            },
        };
        if send_updates {
            self.send_updates_priv();
        }
        match self.post_monitors() {
            Ok(_) => {},
            Err(e) => {
                return Err(e);
            },
        }
        self.send_ack(reqid, Some(count));
        Ok(())
    }

    /// Host command: do nothing but optionally flush and acknowledge.
    pub fn ping(&mut self, reqid: u32, send_updates: bool) -> (r: Result<(), CellError>)
        requires
            old(self).wf(),
        ensures
            final(self).wf(),
            final(self).tick == old(self).tick,
            final(self).graphs == old(self).graphs,
            final(self).queue == old(self).queue,
            final(self).pq == old(self).pq,
            final(self).monitors == old(self).monitors,
            final(self).monitor_checks == old(self).monitor_checks,
            final(self).alarms == old(self).alarms,
            final(self).alarm_queue == old(self).alarm_queue,
            send_updates ==> final(self).to_update@.len() == 0,
            !send_updates ==> final(self).to_update == old(self).to_update,
            final(self).callbacks@.len() == old(self).callbacks@.len() + (if send_updates {
                2int
            } else {
                1int
            }),
            final(self).callbacks@.last() == (Callback::SendAck { reqid, response: None }),
            send_updates ==> final(self).callbacks@[final(self).callbacks@.len()
                - 2] is SendUpdates,
            r is Ok,
    {
        if send_updates {
            self.send_updates_priv();
        }
        self.send_ack(reqid, None);
        Ok(())
    }

    /// Host command: create a gate and queue it for its first
    /// evaluation.
    pub fn add_gate(
        &mut self,
        graph_id: String,
        gate_id: String,
        cell_type: String,
        gate_params: GateParams,
        port_params: Vec<PortParams>,
    ) -> (r: Result<(), CellError>)
        requires
            old(self).wf(),
        ensures
            final(self).wf(),
            final(self).tick == old(self).tick,
            final(self).callbacks == old(self).callbacks,
    {
        let gi = match self.graph_index(graph_id.as_str()) {
            Some(i) => i,
            None => {
                return Err(CellError::LookupMiss);
            },
        };
        let mut graph = self.graphs.remove(gi);
        let added = graph.add_gate(gate_id.clone(), cell_type, gate_params, port_params);
        self.graphs.insert(gi, graph);
        proof {
            assert forall|ii: int| 0 <= ii < self.graphs@.len() implies (
            #[trigger] self.graphs@[ii]).wf() by {
            }
        }
        match added {
            Ok(_) => {},
            Err(e) => {
                return Err(e);
            },
        }
        self.enqueue(graph_id, gate_id)
    }

    /// Host command: connect an output port to an input port and
    /// propagate the source's current value.  The endpoints must exist,
    /// the source port must be an output feeding an input of the same
    /// width.
    pub fn add_link(
        &mut self,
        graph_id: String,
        link_id: String,
        from: LinkTarget,
        to: LinkTarget,
    ) -> (r: Result<(), CellError>)
        requires
            old(self).wf(),
        ensures
            final(self).wf(),
            r is Ok ==> exists|gi: int|
                0 <= gi < final(self).graphs@.len() && (#[trigger] final(self).graphs@[gi]).id@
                    == graph_id@ && exists|li: int|
                    0 <= li < final(self).graphs@[gi].links@.len() && {
                        let l = #[trigger] final(self).graphs@[gi].links@[li];
                        &&& l.0@ == link_id@
                        &&& l.1.source.id@ == from.id@
                        &&& l.1.source.port@ == from.port@
                        &&& l.1.target.id@ == to.id@
                        &&& l.1.target.port@ == to.port@
                    },
    {
        let gi = match self.graph_index(graph_id.as_str()) {
            Some(i) => i,
            None => {
                return Err(CellError::LookupMiss);
            },
        };
        // validate the endpoints first: an output port must feed an
        // input port of the same width
        let sgi = match self.graphs[gi].gate_index(from.id.as_str()) {
            Some(i) => i,
            None => {
                return Err(CellError::LookupMiss);
            },
        };
        let tgi = match self.graphs[gi].gate_index(to.id.as_str()) {
            Some(i) => i,
            None => {
                return Err(CellError::LookupMiss);
            },
        };
        proof {
            assert(self.graphs@[gi as int].wf());
            assert(self.graphs@[gi as int].gates@[sgi as int].wf());
            assert(self.graphs@[gi as int].gates@[tgi as int].wf());
        }
        let sig = match self.graphs[gi].gates[sgi].get_output(from.port.as_str()) {
            Ok(s) => s,
            Err(e) => {
                return Err(e);
            },
        };
        let target_in = match self.graphs[gi].gates[tgi].get_input(to.port.as_str()) {
            Ok(s) => s,
            Err(e) => {
                return Err(e);
            },
        };
        if sig.bits != target_in.bits {
            return Err(CellError::WidthMismatch);
        }
        let mut graph = self.graphs.remove(gi);
        let added = graph.add_link(link_id, from.clone(), to.clone());
        self.graphs.insert(gi, graph);
        proof {
            assert forall|ii: int| 0 <= ii < self.graphs@.len() implies (
            #[trigger] self.graphs@[ii]).wf() by {
            }
        }
        match added {
            Ok(_) => {},
            Err(e) => {
                return Err(e);
            },
        }
        let ghost pre = self.graphs@;
        let ghost li = pre[gi as int].links@.len() - 1;
        proof {
            assert(pre[gi as int].id@ == graph_id@);
            assert(pre[gi as int].links@[li].0@ == link_id@);
            assert(pre[gi as int].links@[li].1.source.id@ == from.id@);
            assert(pre[gi as int].links@[li].1.target.id@ == to.id@);
        }
        // push the source's current output into the new target
        let mut tasks: Vec<Task> = Vec::new();
        tasks.push(
            Task::SetIn { graph_id, gate_id: to.id.clone(), port: to.port.clone(), sig },
        );
        let r = self.process_tasks(tasks);
        proof {
            assert(self.graphs@[gi as int].links == pre[gi as int].links);
            assert(self.graphs@[gi as int].id@ == graph_id@);
        }
        r
    }

    /// Host command: disconnect a link; the orphaned input is forced
    /// to all-X of its width.
    pub fn remove_link(&mut self, graph_id: String, link_id: String) -> (r: Result<(), CellError>)
        requires
            old(self).wf(),
        ensures
            final(self).wf(),
            r is Ok ==> exists|gi: int|
                0 <= gi < final(self).graphs@.len() && (#[trigger] final(self).graphs@[gi]).id@
                    == graph_id@ && final(self).graphs@[gi].links@.len() == old(
                    self,
                ).graphs@[gi].links@.len() - 1,
    {
        let gi = match self.graph_index(graph_id.as_str()) {
            Some(i) => i,
            None => {
                return Err(CellError::LookupMiss);
            },
        };
        let ghost old_links = self.graphs@[gi as int].links@.len();
        let mut graph = self.graphs.remove(gi);
        let removed = graph.remove_link(link_id.as_str());
        self.graphs.insert(gi, graph);
        proof {
            assert forall|ii: int| 0 <= ii < self.graphs@.len() implies (
            #[trigger] self.graphs@[ii]).wf() by {
            }
        }
        let link = match removed {
            Ok(l) => l,
            Err(e) => {
                return Err(e);
            },
        };
        let tgi = match self.graphs[gi].gate_index(link.target.id.as_str()) {
            Some(i) => i,
            None => {
                return Err(CellError::LookupMiss);
            },
        };
        proof {
            assert(self.graphs@[gi as int].wf());
        }
        let cur = match self.graphs[gi].gates[tgi].get_input(link.target.port.as_str()) {
            Ok(s) => s,
            Err(e) => {
                return Err(e);
            },
        };
        let ghost pre = self.graphs@;
        proof {
            assert(pre[gi as int].id@ == graph_id@);
            assert(pre[gi as int].links@.len() == old_links - 1);
        }
        let mut tasks: Vec<Task> = Vec::new();
        tasks.push(
            Task::SetIn {
                graph_id,
                gate_id: link.target.id.clone(),
                port: link.target.port.clone(),
                sig: Vec3vl::xes(cur.bits),
            },
        );
        let r = self.process_tasks(tasks);
        proof {
            assert(self.graphs@[gi as int].links == pre[gi as int].links);
            assert(self.graphs@[gi as int].id@ == graph_id@);
        }
        r
    }

    /// Host command: delete a gate and its incident links.
    pub fn remove_gate(&mut self, graph_id: String, gate_id: String) -> (r: Result<(), CellError>)
        requires
            old(self).wf(),
        ensures
            final(self).wf(),
    {
        let gi = match self.graph_index(graph_id.as_str()) {
            Some(i) => i,
            None => {
                return Err(CellError::LookupMiss);
            },
        };
        let mut graph = self.graphs.remove(gi);
        let removed = graph.remove_gate(gate_id.as_str());
        self.graphs.insert(gi, graph);
        proof {
            assert forall|ii: int| 0 <= ii < self.graphs@.len() implies (
            #[trigger] self.graphs@[ii]).wf() by {
            }
        }
        removed
    }

    /// Host command: bind a subgraph under a subcircuit gate and
    /// mirror the current steady state across the boundary.
    pub fn add_subcircuit(
        &mut self,
        graph_id: String,
        gate_id: String,
        subgraph_id: String,
        io_map: Vec<(String, String)>,
    ) -> (r: Result<(), CellError>)
        requires
            old(self).wf(),
        ensures
            final(self).wf(),
    {
        let gi = match self.graph_index(graph_id.as_str()) {
            Some(i) => i,
            None => {
                return Err(CellError::LookupMiss);
            },
        };
        let gidx = match self.graphs[gi].gate_index(gate_id.as_str()) {
            Some(i) => i,
            None => {
                return Err(CellError::LookupMiss);
            },
        };
        let si = match self.graph_index(subgraph_id.as_str()) {
            Some(i) => i,
            None => {
                return Err(CellError::LookupMiss);
            },
        };
        {
            let mut graph = self.graphs.remove(gi);
            let mut gate = graph.gates.remove(gidx);
            gate.set_subgraph(subgraph_id.clone());
            graph.gates.insert(gidx, gate);
            self.graphs.insert(gi, graph);
            proof {
                assert forall|ii: int| 0 <= ii < self.graphs@.len() implies (
                #[trigger] self.graphs@[ii]).wf() by {
                }
            }
        }
        {
            let mut sub = self.graphs.remove(si);
            sub.set_subcircuit(graph_id.clone(), gate_id.clone());
            self.graphs.insert(si, sub);
            proof {
                assert forall|ii: int| 0 <= ii < self.graphs@.len() implies (
                #[trigger] self.graphs@[ii]).wf() by {
                }
            }
        }
        // mirror the current steady state through each mapped port
        let n = io_map.len();
        let mut i: usize = 0;
        while i < n
            invariant
                i <= n,
                n == io_map@.len(),
                self.wf(),
            decreases n - i,
        {
            let port = io_map[i].0.clone();
            let io_id = io_map[i].1.clone();
            let gi2 = match self.graph_index(graph_id.as_str()) {
                Some(x) => x,
                None => {
                    return Err(CellError::LookupMiss);
                },
            };
            let gidx2 = match self.graphs[gi2].gate_index(gate_id.as_str()) {
                Some(x) => x,
                None => {
                    return Err(CellError::LookupMiss);
                },
            };
            proof {
                assert(self.graphs@[gi2 as int].wf());
            }
            let dir = match self.graphs[gi2].gates[gidx2].get_port_dir(port.as_str()) {
                Ok(d) => d,
                Err(e) => {
                    return Err(e);
                },
            };
            let mut tasks: Vec<Task> = Vec::new();
            match dir {
                IoDir::In => {
                    let sig = match self.graphs[gi2].gates[gidx2].get_input(port.as_str()) {
                        Ok(s) => s,
                        Err(e) => {
                            return Err(e);
                        },
                    };
                    tasks.push(
                        Task::SetOut {
                            graph_id: subgraph_id.clone(),
                            gate_id: io_id,
                            port: "out".to_owned(),
                            sig,
                        },
                    );
                },
                IoDir::Out => {
                    let si2 = match self.graph_index(subgraph_id.as_str()) {
                        Some(x) => x,
                        None => {
                            return Err(CellError::LookupMiss);
                        },
                    };
                    let ioidx = match self.graphs[si2].gate_index(io_id.as_str()) {
                        Some(x) => x,
                        None => {
                            return Err(CellError::LookupMiss);
                        },
                    };
                    proof {
                        assert(self.graphs@[si2 as int].wf());
                    }
                    let sig = match self.graphs[si2].gates[ioidx].get_input("in") {
                        Ok(s) => s,
                        Err(e) => {
                            return Err(e);
                        },
                    };
                    tasks.push(
                        Task::SetOut {
                            graph_id: graph_id.clone(),
                            gate_id: gate_id.clone(),
                            port: port.clone(),
                            sig,
                        },
                    );
                },
            }
            match self.process_tasks(tasks) {
                Ok(_) => {},
                Err(e) => {
                    return Err(e);
                },
            }
            i = i + 1;
        }
        // record the io map on the subcircuit gate
        let gi3 = match self.graph_index(graph_id.as_str()) {
            Some(x) => x,
            None => {
                return Err(CellError::LookupMiss);
            },
        };
        let gidx3 = match self.graphs[gi3].gate_index(gate_id.as_str()) {
            Some(x) => x,
            None => {
                return Err(CellError::LookupMiss);
            },
        };
        let mut graph = self.graphs.remove(gi3);
        let mut gate = graph.gates.remove(gidx3);
        gate.set_subgraph_iomap(io_map);
        graph.gates.insert(gidx3, gate);
        self.graphs.insert(gi3, graph);
        proof {
            assert forall|ii: int| 0 <= ii < self.graphs@.len() implies (
            #[trigger] self.graphs@[ii]).wf() by {
            }
        }
        Ok(())
    }

    /// Host command: start reporting a graph's output changes; its
    /// current outputs are all recorded for the next flush.
    pub fn observe_graph(&mut self, graph_id: String) -> (r: Result<(), CellError>)
        requires
            old(self).wf(),
        ensures
            final(self).wf(),
            final(self).tick == old(self).tick,
            r is Ok ==> exists|gi: int|
                0 <= gi < final(self).graphs@.len() && (#[trigger] final(self).graphs@[gi]).id@
                    == graph_id@ && final(self).graphs@[gi].observed,
    {
        let gi = match self.graph_index(graph_id.as_str()) {
            Some(i) => i,
            None => {
                return Err(CellError::LookupMiss);
            },
        };
        let mut graph = self.graphs.remove(gi);
        graph.observe();
        self.graphs.insert(gi, graph);
        proof {
            assert forall|ii: int| 0 <= ii < self.graphs@.len() implies (
            #[trigger] self.graphs@[ii]).wf() by {
            }
        }
        // record every output port of every gate
        let gn = self.graphs[gi].gates.len();
        let mut g: usize = 0;
        while g < gn
            invariant
                g <= gn,
                gi < self.graphs@.len(),
                gn == self.graphs@[gi as int].gates@.len(),
                self.wf(),
                self.tick == old(self).tick,
                self.graphs@[gi as int].id@ == graph_id@,
                self.graphs@[gi as int].observed,
            decreases gn - g,
        {
            let pn = self.graphs[gi].gates[g].io_dirs.len();
            let mut p: usize = 0;
            while p < pn
                invariant
                    p <= pn,
                    gi < self.graphs@.len(),
                    g < self.graphs@[gi as int].gates@.len(),
                    gn == self.graphs@[gi as int].gates@.len(),
                    pn == self.graphs@[gi as int].gates@[g as int].io_dirs@.len(),
                    self.wf(),
                    self.tick == old(self).tick,
                    self.graphs@[gi as int].id@ == graph_id@,
                    self.graphs@[gi as int].observed,
                decreases pn - p,
            {
                let is_out = match self.graphs[gi].gates[g].io_dirs[p].1 {
                    IoDir::Out => true,
                    IoDir::In => false,
                };
                if is_out {
                    let gid = self.graphs[gi].gates[g].id.clone();
                    let pid = self.graphs[gi].gates[g].io_dirs[p].0.clone();
                    self.mark_update(graph_id.as_str(), gid.as_str(), pid.as_str());
                }
                p = p + 1;
            }
            g = g + 1;
        }
        Ok(())
    }

    /// Host command: stop reporting a graph's output changes.
    pub fn unobserve_graph(&mut self, graph_id: String) -> (r: Result<(), CellError>)
        requires
            old(self).wf(),
        ensures
            final(self).wf(),
            final(self).tick == old(self).tick,
            r is Err ==> *final(self) == *old(self),
            r is Ok ==> exists|gi: int|
                0 <= gi < final(self).graphs@.len() && (#[trigger] final(self).graphs@[gi]).id@
                    == graph_id@ && !final(self).graphs@[gi].observed,
    {
        let gi = match self.graph_index(graph_id.as_str()) {
            Some(i) => i,
            None => {
                return Err(CellError::LookupMiss);
            },
        };
        let mut graph = self.graphs.remove(gi);
        graph.unobserve();
        self.graphs.insert(gi, graph);
        proof {
            assert forall|ii: int| 0 <= ii < self.graphs@.len() implies (
            #[trigger] self.graphs@[ii]).wf() by {
            }
            assert(self.graphs@[gi as int].id@ == graph_id@ && !self.graphs@[gi as int].observed);
        }
        Ok(())
    }

    /// Host command: override a designated input cell's output and
    /// propagate it.
    pub fn change_input(&mut self, graph_id: String, gate_id: String, sig: Vec3vl) -> (r: Result<
        (),
        CellError,
    >)
        requires
            old(self).wf(),
        ensures
            final(self).wf(),
    {
        let mut tasks: Vec<Task> = Vec::new();
        tasks.push(Task::SetOut { graph_id, gate_id, port: "out".to_owned(), sig });
        self.process_tasks(tasks)
    }

    /// Host command: poke one word of a memory gate and re-queue it.
    pub fn manual_mem_change(
        &mut self,
        graph_id: String,
        gate_id: String,
        addr: u32,
        data: Vec3vl,
    ) -> (r: Result<(), CellError>)
        requires
            old(self).wf(),
            data.well_formed(),
        ensures
            final(self).wf(),
            final(self).tick == old(self).tick,
            r is Ok ==> exists|gi: int|
                0 <= gi < final(self).graphs@.len() && (#[trigger] final(self).graphs@[gi]).id@
                    == graph_id@ && exists|gx: int|
                    0 <= gx < final(self).graphs@[gi].gates@.len() && (#[trigger] final(self).graphs@[gi].gates@[gx]).id@ == gate_id@ && final(self).graphs@[gi].gates@[gx].operation is Memory && final(self).graphs@[gi].gates@[gx].operation->Memory_0.memory@ == old(self).graphs@[gi].gates@[gx].operation->Memory_0.memory@.update(addr as int, data),
    {
        let gi = match self.graph_index(graph_id.as_str()) {
            Some(i) => i,
            None => {
                return Err(CellError::LookupMiss);
            },
        };
        let gidx = match self.graphs[gi].gate_index(gate_id.as_str()) {
            Some(i) => i,
            None => {
                return Err(CellError::LookupMiss);
            },
        };
        let ghost gidv = graph_id@;
        let ghost gtidv = gate_id@;
        let mut graph = self.graphs.remove(gi);
        let mut gate = graph.gates.remove(gidx);
        let poked = gate.set_memory(addr, data);
        graph.gates.insert(gidx, gate);
        self.graphs.insert(gi, graph);
        proof {
            assert forall|ii: int| 0 <= ii < self.graphs@.len() implies (
            #[trigger] self.graphs@[ii]).wf() by {
            }
        }
        match poked {
            Ok(_) => {},
            Err(e) => {
                return Err(e);
            },
        }
        proof {
            assert(self.graphs@[gi as int].id@ == gidv);
            assert(self.graphs@[gi as int].gates@[gidx as int].id@ == gtidv);
            assert(self.graphs@[gi as int].gates@[gidx as int].operation is Memory);
            assert(self.graphs@[gi as int].gates@[gidx as int].operation->Memory_0.memory@ == old(self).graphs@[gi as int].gates@[gidx as int].operation->Memory_0.memory@.update(
                addr as int,
                data,
            ));
        }
        self.enqueue(graph_id, gate_id)
    }

    /// Host command: attach a monitor; without a trigger set, the
    /// port's current value is posted at once.
    pub fn monitor(
        &mut self,
        graph_id: String,
        gate_id: String,
        port: String,
        monitor_id: u32,
        params: MonitorParams,
    ) -> (r: Result<(), CellError>)
        requires
            old(self).wf(),
        ensures
            final(self).wf(),
            final(self).tick == old(self).tick,
            r is Err ==> *final(self) == *old(self),
            r is Ok ==> final(self).monitors@.len() == old(self).monitors@.len() + 1,
            r is Ok ==> (final(self).monitors@.last().0 == monitor_id && final(self).monitors@.last().1 == params),
            (r is Ok && params.trigger_values is None) ==> (final(self).callbacks@.len() == old(self).callbacks@.len() + 1 && final(self).callbacks@.last() is PostMonitorValue && final(self).callbacks@.last()->PostMonitorValue_monitor_id == monitor_id),
            (r is Ok && params.trigger_values is Some) ==> final(self).callbacks == old(self).callbacks,
    {
        let gi = match self.graph_index(graph_id.as_str()) {
            Some(i) => i,
            None => {
                return Err(CellError::LookupMiss);
            },
        };
        let gidx = match self.graphs[gi].gate_index(gate_id.as_str()) {
            Some(i) => i,
            None => {
                return Err(CellError::LookupMiss);
            },
        };
        proof {
            assert(self.graphs@[gi as int].wf());
        }
        if params.trigger_values.is_none() {
            let sig = match self.graphs[gi].gates[gidx].get_output(port.as_str()) {
                Ok(s) => s,
                Err(e) => {
                    return Err(e);
                },
            };
            let tick = self.tick;
            self.callbacks.push(
                Callback::PostMonitorValue {
                    monitor_id,
                    tick,
                    bits: sig.bits,
                    avec: sig.avec,
                    bvec: sig.bvec,
                    stop_on_trigger: None,
                    one_shot: None,
                },
            );
        }
        self.monitors.push((monitor_id, params));
        let mut graph = self.graphs.remove(gi);
        let mut gate = graph.gates.remove(gidx);
        gate.monitor(port, monitor_id);
        graph.gates.insert(gidx, gate);
        self.graphs.insert(gi, graph);
        proof {
            assert forall|ii: int| 0 <= ii < self.graphs@.len() implies (
            #[trigger] self.graphs@[ii]).wf() by {
            }
        }
        Ok(())
    }

    /// Host command: detach a monitor.
    pub fn unmonitor(&mut self, monitor_id: u32) -> (r: Result<(), CellError>)
        requires
            old(self).wf(),
        ensures
            final(self).wf(),
            final(self).tick == old(self).tick,
            final(self).callbacks == old(self).callbacks,
            final(self).monitor_checks@.len() <= old(self).monitor_checks@.len(),
            final(self).monitors@.len() <= old(self).monitors@.len(),
    {
        let n = self.monitors.len();
        let mut i: usize = 0;
        let mut found: Option<usize> = None;
        while i < n
            invariant
                i <= n,
                n == self.monitors@.len(),
                self.wf(),
                found is Some ==> found->0 < n,
            decreases n - i,
        {
            if found.is_none() && self.monitors[i].0 == monitor_id {
                found = Some(i);
            }
            i = i + 1;
        }
        let idx = match found {
            Some(i) => i,
            None => {
                return Ok(());
            },
        };
        let (_, params) = self.monitors.remove(idx);
        if let Some(gi) = self.graph_index(params.graph_id.as_str()) {
            if let Some(gidx) = self.graphs[gi].gate_index(params.gate_id.as_str()) {
                let mut graph = self.graphs.remove(gi);
                let mut gate = graph.gates.remove(gidx);
                gate.unmonitor(params.port.as_str(), monitor_id);
                graph.gates.insert(gidx, gate);
                self.graphs.insert(gi, graph);
                proof {
                    assert forall|ii: int| 0 <= ii < self.graphs@.len() implies (
                    #[trigger] self.graphs@[ii]).wf() by {
                    }
                }
            }
        }
        let cn = self.monitor_checks.len();
        let mut c: usize = 0;
        let mut cfound: Option<usize> = None;
        while c < cn
            invariant
                c <= cn,
                cn == self.monitor_checks@.len(),
                self.wf(),
                cfound is Some ==> cfound->0 < cn,
            decreases cn - c,
        {
            if cfound.is_none() && self.monitor_checks[c].0 == monitor_id {
                cfound = Some(c);
            }
            c = c + 1;
        }
        if let Some(ci) = cfound {
            let _ = self.monitor_checks.remove(ci);
        }
        Ok(())
    }

    /// Host command: schedule an alarm at an absolute future tick; the
    /// scheduler makes sure the loop visits the tick before it.
    #[verifier::loop_isolation(false)]
    pub fn alarm(&mut self, tick: u32, alarm_id: u32, stop_on_alarm: bool, synchronous: bool)
        requires
            old(self).wf(),
        ensures
            final(self).wf(),
            tick <= old(self).tick ==> *final(self) == *old(self),
            tick > old(self).tick ==> {
                &&& final(self).alarms@ == old(self).alarms@.push(
                    (alarm_id, AlarmParams { tick, stop_on_alarm, synchronous }),
                )
                &&& exists|ai: int|
                    0 <= ai < final(self).alarm_queue@.len() && (#[trigger] final(self).alarm_queue@[ai]).0 == tick && final(self).alarm_queue@[ai].1@.contains(
                        alarm_id,
                    )
                &&& final(self).pq@.contains((tick - 1) as u32)
                &&& final(self).tick == old(self).tick
                &&& final(self).graphs == old(self).graphs
                &&& final(self).callbacks == old(self).callbacks
            },
    {
        if tick <= self.tick {
            return ;
        }
        self.alarms.push((alarm_id, AlarmParams { tick, stop_on_alarm, synchronous }));
        let n = self.alarm_queue.len();
        let mut i: usize = 0;
        let mut found: Option<usize> = None;
        while i < n
            invariant
                i <= n,
                n == self.alarm_queue@.len(),
                self.wf(),
                found is Some ==> found->0 < n && self.alarm_queue@[found->0 as int].0 == tick,
            decreases n - i,
        {
            if found.is_none() && self.alarm_queue[i].0 == tick {
                found = Some(i);
            }
            i = i + 1;
        }
        match found {
            Some(ai) => {
                let mut rec = self.alarm_queue.remove(ai);
                rec.1.push(alarm_id);
                self.alarm_queue.insert(ai, rec);
                proof {
                    assert(self.alarm_queue@[ai as int].0 == tick
                        && self.alarm_queue@[ai as int].1@.last() == alarm_id);
                    assert(self.alarm_queue@[ai as int].1@.contains(alarm_id));
                }
            },
            None => {
                let mut ids: Vec<u32> = Vec::new();
                ids.push(alarm_id);
                self.alarm_queue.push((tick, ids));
                proof {
                    let ai = self.alarm_queue@.len() - 1;
                    assert(self.alarm_queue@[ai].0 == tick && self.alarm_queue@[ai].1@[0]
                        == alarm_id);
                    assert(self.alarm_queue@[ai].1@.contains(alarm_id));
                }
            },
        }
        // make sure the update loop passes through the alarm's tick
        let prev = tick - 1;
        let qn = self.queue.len();
        let mut qi: usize = 0;
        let mut qfound = false;
        while qi < qn
            invariant
                qi <= qn,
                qn == self.queue@.len(),
                self.wf(),
                qfound ==> exists|m: int|
                    0 <= m < self.queue@.len() && (#[trigger] self.queue@[m]).0 == prev,
                !qfound ==> forall|m: int| 0 <= m < qi ==> (#[trigger] self.queue@[m]).0 != prev,
            decreases qn - qi,
        {
            if self.queue[qi].0 == prev {
                qfound = true;
            }
            qi = qi + 1;
        }
        if !qfound {
            self.queue.push((prev, Vec::new()));
            proof {
                assert forall|a: int, b: int|
                    0 <= a < b < self.queue@.len() implies (#[trigger] self.queue@[a]).0 != (
                #[trigger] self.queue@[b]).0 by {
                    if b == self.queue@.len() - 1 {
                        assert(self.queue@[a].0 != prev);
                    }
                }
            }
        }
        self.pq_insert(prev);
    }

    /// Host command: drop a scheduled alarm.
    pub fn unalarm(&mut self, alarm_id: u32)
        requires
            old(self).wf(),
        ensures
            final(self).wf(),
    {
        let n = self.alarms.len();
        let mut i: usize = 0;
        let mut found: Option<usize> = None;
        while i < n
            invariant
                i <= n,
                n == self.alarms@.len(),
                self.wf(),
                found is Some ==> found->0 < n,
            decreases n - i,
        {
            if found.is_none() && self.alarms[i].0 == alarm_id {
                found = Some(i);
            }
            i = i + 1;
        }
        let idx = match found {
            Some(i) => i,
            None => {
                return ;
            },
        };
        let (_, params) = self.alarms.remove(idx);
        let qn = self.alarm_queue.len();
        let mut q: usize = 0;
        let mut qfound: Option<usize> = None;
        while q < qn
            invariant
                q <= qn,
                qn == self.alarm_queue@.len(),
                self.wf(),
                qfound is Some ==> qfound->0 < qn,
            decreases qn - q,
        {
            if qfound.is_none() && self.alarm_queue[q].0 == params.tick {
                qfound = Some(q);
            }
            q = q + 1;
        }
        if let Some(qi) = qfound {
            let mut rec = self.alarm_queue.remove(qi);
            let mut kept: Vec<u32> = Vec::new();
            let m = rec.1.len();
            let mut j: usize = 0;
            while j < m
                invariant
                    j <= m,
                    m == rec.1@.len(),
                decreases m - j,
            {
                if rec.1[j] != alarm_id {
                    kept.push(rec.1[j]);
                }
                j = j + 1;
            }
            rec.1 = kept;
            if rec.1.len() > 0 {
                self.alarm_queue.insert(qi, rec);
            }
        }
    }

    /// Check recorded monitor values against their triggers, post the
    /// hits, and fire the alarms scheduled at the current tick.
    pub fn post_monitors(&mut self) -> (r: Result<(), CellError>)
        requires
            old(self).wf(),
        ensures
            final(self).wf(),
            final(self).tick == old(self).tick,
            final(self).monitor_checks@.len() == 0,
    {
        let mut checks: Vec<(u32, Vec3vl)> = Vec::new();
        core::mem::swap(&mut checks, &mut self.monitor_checks);
        let n = checks.len();
        let mut i: usize = 0;
        while i < n
            invariant
                i <= n,
                n == checks@.len(),
                self.wf(),
                self.tick == old(self).tick,
                self.monitor_checks@.len() == 0,
            decreases n - i,
        {
            let monitor_id = checks[i].0;
            // find the monitor's parameters
            let mn = self.monitors.len();
            let mut m: usize = 0;
            let mut mfound: Option<usize> = None;
            while m < mn
                invariant
                    m <= mn,
                    mn == self.monitors@.len(),
                    self.wf(),
                    mfound is Some ==> mfound->0 < mn,
                decreases mn - m,
            {
                if mfound.is_none() && self.monitors[m].0 == monitor_id {
                    mfound = Some(m);
                }
                m = m + 1;
            }
            let mi = match mfound {
                Some(x) => x,
                None => {
                    return Err(CellError::LookupMiss);
                },
            };
            let stop_on_trigger = self.monitors[mi].1.stop_on_trigger;
            let one_shot = self.monitors[mi].1.one_shot;
            let synchronous = self.monitors[mi].1.synchronous;
            let mut triggered = true;
            match &self.monitors[mi].1.trigger_values {
                Some(tvs) => {
                    triggered = false;
                    let tn = tvs.len();
                    let mut t: usize = 0;
                    while t < tn
                        invariant
                            t <= tn,
                            mi < self.monitors@.len(),
                            tn == self.monitors@[mi as int].1.trigger_values->0@.len(),
                            i < checks@.len(),
                            self.wf(),
                            self.tick == old(self).tick,
                            self.monitor_checks@.len() == 0,
                        decreases tn - t,
                    {
                        let tvs2 = match &self.monitors[mi].1.trigger_values {
                            Some(v) => v,
                            None => {
                                return Err(CellError::LookupMiss);
                            },
                        };
                        if tvs2[t] == checks[i].1 {
                            triggered = true;
                        }
                        t = t + 1;
                    }
                },
                None => {},
            }
            if triggered {
                if one_shot {
                    match self.unmonitor(monitor_id) {
                        Ok(_) => {},
                        Err(e) => {
                            return Err(e);
                        },
                    }
                }
                if synchronous {
                    self.send_updates_priv();
                }
                let tick = self.tick;
                let sig = checks[i].1.clone();
                self.callbacks.push(
                    Callback::PostMonitorValue {
                        monitor_id,
                        tick,
                        bits: sig.bits,
                        avec: sig.avec,
                        bvec: sig.bvec,
                        stop_on_trigger: Some(stop_on_trigger),
                        one_shot: Some(one_shot),
                    },
                );
                if stop_on_trigger {
                    self.callbacks.push(Callback::UpdaterStop);
                }
            }
            i = i + 1;
        }
        // alarms scheduled at the current tick
        let qn = self.alarm_queue.len();
        let mut q: usize = 0;
        let mut qfound: Option<usize> = None;
        while q < qn
            invariant
                q <= qn,
                qn == self.alarm_queue@.len(),
                self.wf(),
                self.tick == old(self).tick,
                qfound is Some ==> qfound->0 < qn,
            decreases qn - q,
        {
            if qfound.is_none() && self.alarm_queue[q].0 == self.tick {
                qfound = Some(q);
            }
            q = q + 1;
        }
        if let Some(qi) = qfound {
            let rec = self.alarm_queue.remove(qi);
            let an = rec.1.len();
            let mut a: usize = 0;
            while a < an
                invariant
                    a <= an,
                    an == rec.1@.len(),
                    self.wf(),
                    self.tick == old(self).tick,
                    self.monitor_checks@.len() == 0,
                decreases an - a,
            {
                let alarm_id = rec.1[a];
                // find and drop the alarm's parameters
                let ln = self.alarms.len();
                let mut l: usize = 0;
                let mut lfound: Option<usize> = None;
                while l < ln
                    invariant
                        l <= ln,
                        ln == self.alarms@.len(),
                        self.wf(),
                        self.tick == old(self).tick,
                        lfound is Some ==> lfound->0 < ln,
                    decreases ln - l,
                {
                    if lfound.is_none() && self.alarms[l].0 == alarm_id {
                        lfound = Some(l);
                    }
                    l = l + 1;
                }
                if let Some(li) = lfound {
                    let (_, params) = self.alarms.remove(li);
                    if params.synchronous {
                        self.send_updates_priv();
                    }
                    let tick = self.tick;
                    self.callbacks.push(
                        Callback::SendAlarmReached {
                            alarm_id,
                            tick,
                            stop_on_alarm: params.stop_on_alarm,
                        },
                    );
                    if params.stop_on_alarm {
                        self.callbacks.push(Callback::UpdaterStop);
                    }
                }
                a = a + 1;
            }
        }
        Ok(())
    }

    /// Flush the recorded output changes to the host as one batch:
    /// each changed `(gate, port)` appears exactly once, and exactly
    /// one `SendUpdates` callback is raised, with the pending flag set
    /// exactly when work is still queued.
    #[verifier::loop_isolation(false)]
    pub fn send_updates_priv(&mut self)
        requires
            old(self).wf(),
        ensures
            final(self).wf(),
            final(self).tick == old(self).tick,
            final(self).to_update@.len() == 0,
            final(self).graphs == old(self).graphs,
            final(self).queue == old(self).queue,
            final(self).pq == old(self).pq,
            final(self).monitors == old(self).monitors,
            final(self).monitor_checks == old(self).monitor_checks,
            final(self).alarms == old(self).alarms,
            final(self).alarm_queue == old(self).alarm_queue,
            final(self).callbacks@.len() == old(self).callbacks@.len() + 1,
            forall|i: int|
                0 <= i < old(self).callbacks@.len() ==> #[trigger] final(self).callbacks@[i]
                    == old(self).callbacks@[i],
            final(self).callbacks@.last() is SendUpdates,
            final(self).callbacks@.last()->SendUpdates_tick == old(self).tick,
            final(self).callbacks@.last()->SendUpdates_pending == (old(self).queue@.len() > 0),
            final(self).callbacks@.last()->SendUpdates_updates@.len() == old(self).to_update@.len(),
            forall|i: int|
                0 <= i < old(self).to_update@.len() ==> {
                    let u = #[trigger] final(self).callbacks@.last()->SendUpdates_updates@[i];
                    u.graph_id@ == old(self).to_update@[i].0@ && u.gate_id@ == old(self).to_update@[i].1@
                },
    {
        let mut recs: Vec<(String, String, Vec<String>)> = Vec::new();
        core::mem::swap(&mut recs, &mut self.to_update);
        let mut updates: Vec<UpdateStruct> = Vec::new();
        let n = recs.len();
        let mut i: usize = 0;
        while i < n
            invariant
                i <= n,
                n == recs@.len(),
                self.wf(),
                self.tick == old(self).tick,
                self.to_update@.len() == 0,
                self.graphs == old(self).graphs,
                self.queue == old(self).queue,
                self.pq == old(self).pq,
                self.monitors == old(self).monitors,
                self.monitor_checks == old(self).monitor_checks,
                self.alarms == old(self).alarms,
                self.alarm_queue == old(self).alarm_queue,
                self.callbacks == old(self).callbacks,
                updates@.len() == i,
                forall|m: int|
                    0 <= m < i ==> ((#[trigger] updates@[m]).graph_id@ == recs@[m].0@
                        && updates@[m].gate_id@ == recs@[m].1@),
            decreases n - i,
        {
            let mut signals: Vec<PortUpdate> = Vec::new();
            let pn = recs[i].2.len();
            let mut p: usize = 0;
            while p < pn
                invariant
                    p <= pn,
                    i < recs@.len(),
                    pn == recs@[i as int].2@.len(),
                    self.wf(),
                    self.tick == old(self).tick,
                    self.to_update@.len() == 0,
                decreases pn - p,
            {
                let gi = match self.graph_index(recs[i].0.as_str()) {
                    Some(x) => Some(x),
                    None => None,
                };
                if let Some(gi2) = gi {
                    if let Some(gidx) = self.graphs[gi2].gate_index(recs[i].1.as_str()) {
                        proof {
                            assert(self.graphs@[gi2 as int].wf());
                        }
                        match self.graphs[gi2].gates[gidx].get_output(recs[i].2[p].as_str()) {
                            Ok(sig) => {
                                signals.push(
                                    PortUpdate {
                                        port: recs[i].2[p].clone(),
                                        bits: sig.bits,
                                        avec: sig.avec,
                                        bvec: sig.bvec,
                                    },
                                );
                            },
                            Err(_) => {},
                        }
                    }
                }
                p = p + 1;
            }
            updates.push(
                UpdateStruct { graph_id: recs[i].0.clone(), gate_id: recs[i].1.clone(), val: signals },
            );
            i = i + 1;
        }
        let tick = self.tick;
        let pending = self.has_pending_updates();
        self.callbacks.push(Callback::SendUpdates { tick, pending, updates });
    }

    /// Acknowledge a host request.
    pub fn send_ack(&mut self, reqid: u32, response: Option<u32>)
        requires
            old(self).wf(),
        ensures
            final(self).wf(),
            final(self).tick == old(self).tick,
            final(self).graphs == old(self).graphs,
            final(self).queue == old(self).queue,
            final(self).pq == old(self).pq,
            final(self).to_update == old(self).to_update,
            final(self).monitors == old(self).monitors,
            final(self).monitor_checks == old(self).monitor_checks,
            final(self).alarms == old(self).alarms,
            final(self).alarm_queue == old(self).alarm_queue,
            final(self).callbacks@ == old(self).callbacks@.push(
                Callback::SendAck { reqid, response },
            ),
    {
        self.callbacks.push(Callback::SendAck { reqid, response });
    }

    /// Whether any work is still queued.
    pub fn has_pending_updates(&self) -> (r: bool)
        ensures
            r == (self.queue@.len() > 0),
    {
        self.queue.len() > 0
    }
}

/// Writing the same output twice coalesces: an update flush reports
/// each changed gate at most once...
pub proof fn lemma_updates_coalesced_per_gate(e: Engine, i: int, j: int)
    requires
        e.wf(),
        0 <= i < j < e.to_update@.len(),
    ensures
        e.to_update@[i].0@ != e.to_update@[j].0@ || e.to_update@[i].1@ != e.to_update@[j].1@,
{
}

/// ... and, within a gate's entry, each changed port at most once.
pub proof fn lemma_updates_coalesced_per_port(e: Engine, r: int, p: int, q: int)
    requires
        e.wf(),
        0 <= r < e.to_update@.len(),
        0 <= p < q < e.to_update@[r].2@.len(),
    ensures
        e.to_update@[r].2@[p]@ != e.to_update@[r].2@[q]@,
{
}

/// Each queued batch evaluates a gate at most once: two different
/// entries of one tick's batch always name different gates.
pub proof fn lemma_at_most_once_per_tick(e: Engine, t: int, i: int, j: int)
    requires
        e.wf(),
        0 <= t < e.queue@.len(),
        0 <= i < j < e.queue@[t].1@.len(),
    ensures
        distinct_keys(e.queue@[t].1@[i], e.queue@[t].1@[j]),
{
}

} // verus!

