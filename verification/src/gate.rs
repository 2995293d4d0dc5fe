//! Gates: cell instances inside a graph, with their port signals,
//! adjacency and the operation they evaluate.

use vstd::prelude::*;

use crate::errors::CellError;
use crate::link::LinkTarget;
use crate::operations::{GateParams, Operation, ReturnValue};
use crate::sigmap::SigMap;
use crate::vector3vl::{str_eq, Vec3vl};

verus! {

/// The direction of a port.
#[derive(Clone, Copy, PartialEq, Eq, Structural)]
pub enum IoDir {
    In,
    Out,
}

/// The bus-slice parameters of a `BusSlice` cell.
#[derive(Clone, Copy)]
pub struct SliceOptions {
    pub count: u32,
    pub first: u32,
    pub total: u32,
}

impl SliceOptions {
    /// Read the slice bounds from a parameter payload (one bit starting
    /// at zero out of two when absent).
    pub fn new(gate_params: &GateParams) -> (r: SliceOptions)
        ensures
            gate_params.slice is Some ==> r == gate_params.slice->0,
    {
        match &gate_params.slice {
            Some(o) => SliceOptions { count: o.count, first: o.first, total: o.total },
            None => SliceOptions { count: 1, first: 0, total: 2 },
        }
    }
}

/// One port declaration a host hands over when it creates a gate.
pub struct PortParams {
    pub id: String,
    pub dir: String,
    pub bits: u32,
    pub avec: Vec<u32>,
    pub bvec: Vec<u32>,
}

/// A cell instance: its identity, port signals, adjacency, and the
/// operation it evaluates.
pub struct Gate {
    pub id: String,
    pub graph_id: String,
    pub in_vals: SigMap,
    pub out_vals: SigMap,
    pub links: Vec<String>,
    pub linked_to: Vec<(String, Vec<LinkTarget>)>,
    pub propagation: u32,
    pub gate_type: String,
    pub subgraph: Option<String>,
    pub subgraph_io_map: Option<Vec<(String, String)>>,
    pub subgraph_net: Option<String>,
    pub io_dirs: Vec<(String, IoDir)>,
    pub operation: Operation,
    pub monitors: Vec<(String, Vec<u32>)>,
}

impl Gate {
    /// Port maps and the operation state are well formed.
    pub open spec fn wf(self) -> bool {
        &&& self.in_vals.wf()
        &&& self.in_vals.values_wf()
        &&& self.out_vals.wf()
        &&& self.out_vals.values_wf()
        &&& self.operation.wf()
    }

    /// Create a gate: the operation comes from the cell-type name, the
    /// port signals from the port declarations (ill-shaped port words
    /// are rejected).
    pub fn new(
        graph_id: String,
        gate_id: String,
        cell_type: String,
        gate_params: GateParams,
        port_params: Vec<PortParams>,
    ) -> (r: Result<Gate, CellError>)
        ensures
            r is Ok ==> r->Ok_0.wf() && r->Ok_0.id@ == gate_id@ && r->Ok_0.graph_id@ == graph_id@
                && r->Ok_0.gate_type@ == cell_type@,
    {
        let propagation = match gate_params.propagation {
            Some(p) => p,
            None => 0,
        };
        let subgraph_net = match &gate_params.net {
            Some(n) => Some(n.clone()),
            None => None,
        };
        let operation = match Operation::from_name(cell_type.as_str(), gate_params) {
            Ok(op) => op,
            Err(e) => {
                return Err(e);
            },
        };
        let mut in_vals = SigMap::new();
        let mut out_vals = SigMap::new();
        let mut linked_to: Vec<(String, Vec<LinkTarget>)> = Vec::new();
        let mut io_dirs: Vec<(String, IoDir)> = Vec::new();
        let n = port_params.len();
        let mut k: usize = 0;
        while k < n
            invariant
                k <= n,
                n == port_params@.len(),
                in_vals.wf(),
                in_vals.values_wf(),
                out_vals.wf(),
                out_vals.values_wf(),
            decreases n - k,
        {
            let p = &port_params[k];
            let sig = match Vec3vl::from_clonable(
                p.bits,
                crate::vector3vl::clone_words(&p.avec),
                crate::vector3vl::clone_words(&p.bvec),
            ) {
                Ok(v) => v,
                Err(e) => {
                    return Err(e);
                },
            };
            if str_eq(p.dir.as_str(), "in") {
                in_vals.insert(p.id.clone(), sig);
                io_dirs.push((p.id.clone(), IoDir::In));
            } else {
                out_vals.insert(p.id.clone(), sig);
                linked_to.push((p.id.clone(), Vec::new()));
                io_dirs.push((p.id.clone(), IoDir::Out));
            }
            k = k + 1;
        }
        Ok(
            Gate {
                id: gate_id,
                graph_id,
                in_vals,
                out_vals,
                links: Vec::new(),
                linked_to,
                propagation,
                gate_type: cell_type,
                subgraph: None,
                subgraph_io_map: None,
                subgraph_net,
                io_dirs,
                operation,
                monitors: Vec::new(),
            },
        )
    }

    pub fn get_id(&self) -> (r: String)
        ensures
            r@ == self.id@,
    {
        self.id.clone()
    }

    pub fn graph_id(&self) -> (r: String)
        ensures
            r@ == self.graph_id@,
    {
        self.graph_id.clone()
    }

    /// Record an outgoing link from one of this gate's output ports.
    pub fn add_link_to(&mut self, port: &str, target: LinkTarget) -> (r: Result<(), CellError>)
        requires
            old(self).wf(),
        ensures
            final(self).wf(),
    {
        let n = self.linked_to.len();
        let mut i: usize = 0;
        while i < n
            invariant
                i <= n,
                n == self.linked_to@.len(),
                self.wf(),
            decreases n - i,
        {
            if str_eq(self.linked_to[i].0.as_str(), port) {
                let mut pair = self.linked_to.remove(i);
                pair.1.push(target);
                self.linked_to.insert(i, pair);
                return Ok(());
            }
            i = i + 1;
        }
        Err(CellError::LookupMiss)
    }

    /// Drop the outgoing links from a port toward a given gate.
    pub fn remove_link_to(&mut self, port: &str, target: &LinkTarget) -> (r: Result<
        (),
        CellError,
    >)
        requires
            old(self).wf(),
        ensures
            final(self).wf(),
    {
        let n = self.linked_to.len();
        let mut i: usize = 0;
        while i < n
            invariant
                i <= n,
                n == self.linked_to@.len(),
                self.wf(),
            decreases n - i,
        {
            if str_eq(self.linked_to[i].0.as_str(), port) {
                let mut pair = self.linked_to.remove(i);
                let mut kept: Vec<LinkTarget> = Vec::new();
                let m = pair.1.len();
                let mut j: usize = 0;
                while j < m
                    invariant
                        j <= m,
                        m == pair.1@.len(),
                    decreases m - j,
                {
                    if !str_eq(pair.1[j].id.as_str(), target.id.as_str()) {
                        kept.push(pair.1[j].clone());
                    }
                    j = j + 1;
                }
                pair.1 = kept;
                self.linked_to.insert(i, pair);
                return Ok(());
            }
            i = i + 1;
        }
        Err(CellError::LookupMiss)
    }

    /// Remember that a link touches this gate.
    pub fn add_link(&mut self, link_id: String)
        requires
            old(self).wf(),
        ensures
            final(self).wf(),
    {
        self.links.push(link_id);
    }

    /// Forget a link that touched this gate.
    pub fn remove_link(&mut self, link_id: &str)
        requires
            old(self).wf(),
        ensures
            final(self).wf(),
    {
        let n = self.links.len();
        let mut kept: Vec<String> = Vec::new();
        let mut i: usize = 0;
        while i < n
            invariant
                i <= n,
                n == self.links@.len(),
            decreases n - i,
        {
            if !str_eq(self.links[i].as_str(), link_id) {
                kept.push(self.links[i].clone());
            }
            i = i + 1;
        }
        self.links = kept;
    }

    /// The links that touch this gate.
    pub fn get_links_iter(&self) -> (r: &Vec<String>)
    {
        &self.links
    }

    /// The targets an output port feeds.
    pub fn get_targets(&self, port: &str) -> (r: Result<Vec<LinkTarget>, CellError>)
    {
        let n = self.linked_to.len();
        let mut i: usize = 0;
        while i < n
            invariant
                i <= n,
                n == self.linked_to@.len(),
            decreases n - i,
        {
            if str_eq(self.linked_to[i].0.as_str(), port) {
                let m = self.linked_to[i].1.len();
                let mut out: Vec<LinkTarget> = Vec::new();
                let mut j: usize = 0;
                while j < m
                    invariant
                        j <= m,
                        i < self.linked_to@.len(),
                        m == self.linked_to@[i as int].1@.len(),
                    decreases m - j,
                {
                    out.push(self.linked_to[i].1[j].clone());
                    j = j + 1;
                }
                return Ok(out);
            }
            i = i + 1;
        }
        Err(CellError::LookupMiss)
    }

    pub fn get_propagation(&self) -> (r: u32)
        ensures
            r == self.propagation,
    {
        self.propagation
    }

    /// A snapshot of all current input signals.
    pub fn get_inputs(&self) -> (r: SigMap)
        requires
            self.wf(),
        ensures
            r.wf(),
            r@ == self.in_vals@,
    {
        self.in_vals.clone()
    }

    /// The current signal on an input port.
    pub fn get_input(&self, port: &str) -> (r: Result<Vec3vl, CellError>)
        requires
            self.wf(),
        ensures
            r is Ok <==> self.in_vals@.contains_key(port@),
            r is Ok ==> r->Ok_0@ == self.in_vals@[port@] && r->Ok_0.well_formed(),
            r is Err ==> r->Err_0 == CellError::LookupMiss,
    {
        match self.in_vals.get(port) {
            Some(v) => {
                proof {
                    assert(crate::vector3vl::view_wf(v@));
                }
                Ok(v.clone())
            },
            None => Err(CellError::LookupMiss),
        }
    }

    /// The current signal on an output port.
    pub fn get_output(&self, port: &str) -> (r: Result<Vec3vl, CellError>)
        requires
            self.wf(),
        ensures
            r is Ok <==> self.out_vals@.contains_key(port@),
            r is Ok ==> r->Ok_0@ == self.out_vals@[port@] && r->Ok_0.well_formed(),
            r is Err ==> r->Err_0 == CellError::LookupMiss,
    {
        match self.out_vals.get(port) {
            Some(v) => {
                proof {
                    assert(crate::vector3vl::view_wf(v@));
                }
                Ok(v.clone())
            },
            None => Err(CellError::LookupMiss),
        }
    }

    /// Publish a signal on an output port.
    pub fn set_output(&mut self, port: String, sig: Vec3vl)
        requires
            old(self).wf(),
            sig.well_formed(),
        ensures
            final(self).wf(),
            final(self).out_vals@ == old(self).out_vals@.insert(port@, sig@),
            final(self).in_vals == old(self).in_vals,
            final(self).operation == old(self).operation,
    {
        self.out_vals.insert(port, sig);
        proof {
            assert forall|k: Seq<char>| self.out_vals@.contains_key(k) implies
                crate::vector3vl::view_wf(#[trigger] self.out_vals@[k]) by {
            }
        }
    }

    /// Record a signal seen on an input port.
    pub fn set_input(&mut self, port: String, sig: Vec3vl)
        requires
            old(self).wf(),
            sig.well_formed(),
        ensures
            final(self).wf(),
            final(self).in_vals@ == old(self).in_vals@.insert(port@, sig@),
            final(self).out_vals == old(self).out_vals,
            final(self).operation == old(self).operation,
    {
        self.in_vals.insert(port, sig);
        proof {
            assert forall|k: Seq<char>| self.in_vals@.contains_key(k) implies
                crate::vector3vl::view_wf(#[trigger] self.in_vals@[k]) by {
            }
        }
    }

    /// Bind this gate to the subgraph it instantiates.
    pub fn set_subgraph(&mut self, subgraph: String)
        requires
            old(self).wf(),
        ensures
            final(self).wf(),
            final(self).subgraph == Option::Some(subgraph),
    {
        self.subgraph = Some(subgraph);
    }

    /// The id of the bound subgraph.
    pub fn get_subgraph(&self) -> (r: Result<String, CellError>)
        ensures
            r is Ok <==> self.subgraph is Some,
            r is Ok ==> r->Ok_0@ == self.subgraph->0@,
    {
        match &self.subgraph {
            Some(s) => Ok(s.clone()),
            None => Err(CellError::LookupMiss),
        }
    }

    pub fn is_subcircuit(&self) -> (r: bool)
        ensures
            r == (self.subgraph is Some),
    {
        self.subgraph.is_some()
    }

    /// The direction of a port.
    pub fn get_port_dir(&self, port: &str) -> (r: Result<IoDir, CellError>)
    {
        let n = self.io_dirs.len();
        let mut i: usize = 0;
        while i < n
            invariant
                i <= n,
                n == self.io_dirs@.len(),
            decreases n - i,
        {
            if str_eq(self.io_dirs[i].0.as_str(), port) {
                return Ok(self.io_dirs[i].1);
            }
            i = i + 1;
        }
        Err(CellError::LookupMiss)
    }

    /// Whether this is an `Output` boundary cell of a subgraph.
    pub fn is_output(&self) -> (r: bool)
        ensures
            r == (self.gate_type@ == "Output"@),
    {
        str_eq(self.gate_type.as_str(), "Output")
    }

    /// Evaluate this gate's operation on a snapshot of inputs.
    pub fn do_operation(&mut self, args: &SigMap) -> (r: Result<ReturnValue, CellError>)
        requires
            old(self).wf(),
            args.wf(),
            args.values_wf(),
        ensures
            final(self).wf(),
            final(self).id == old(self).id,
            final(self).graph_id == old(self).graph_id,
            final(self).in_vals == old(self).in_vals,
            final(self).out_vals == old(self).out_vals,
            final(self).propagation == old(self).propagation,
            (old(self).operation is Noop) ==> (r is Ok && r->Ok_0.out is None && !r->Ok_0.clock),
    {
        self.operation.op(args)
    }

    /// Store the host-port to boundary-cell map of a subcircuit.
    pub fn set_subgraph_iomap(&mut self, map: Vec<(String, String)>)
        requires
            old(self).wf(),
        ensures
            final(self).wf(),
    {
        self.subgraph_io_map = Some(map);
    }

    /// The boundary cell a host port maps to.
    pub fn get_subgraph_iomap_port(&self, port: &str) -> (r: Result<String, CellError>)
    {
        let map = match &self.subgraph_io_map {
            Some(m) => m,
            None => {
                return Err(CellError::LookupMiss);
            },
        };
        let n = map.len();
        let mut i: usize = 0;
        while i < n
            invariant
                i <= n,
                n == map@.len(),
            decreases n - i,
        {
            if str_eq(map[i].0.as_str(), port) {
                return Ok(map[i].1.clone());
            }
            i = i + 1;
        }
        Err(CellError::LookupMiss)
    }

    /// The host-side port a boundary cell mirrors.
    pub fn get_subcir_net(&self) -> (r: Result<String, CellError>)
        ensures
            r is Ok <==> self.subgraph_net is Some,
            r is Ok ==> r->Ok_0@ == self.subgraph_net->0@,
    {
        match &self.subgraph_net {
            Some(n) => Ok(n.clone()),
            None => Err(CellError::LookupMiss),
        }
    }

    /// All ports with their directions.
    pub fn iodirs_iter(&self) -> (r: &Vec<(String, IoDir)>)
    {
        &self.io_dirs
    }

    /// Attach a monitor to an output port.
    pub fn monitor(&mut self, port: String, monitor_id: u32)
        requires
            old(self).wf(),
        ensures
            final(self).wf(),
    {
        let n = self.monitors.len();
        let mut i: usize = 0;
        while i < n
            invariant
                i <= n,
                n == self.monitors@.len(),
                self.wf(),
            decreases n - i,
        {
            if str_eq(self.monitors[i].0.as_str(), port.as_str()) {
                let mut pair = self.monitors.remove(i);
                pair.1.push(monitor_id);
                self.monitors.insert(i, pair);
                return ;
            }
            i = i + 1;
        }
        let mut ids: Vec<u32> = Vec::new();
        ids.push(monitor_id);
        self.monitors.push((port, ids));
    }

    /// Detach a monitor from an output port.
    pub fn unmonitor(&mut self, port: &str, monitor_id: u32)
        requires
            old(self).wf(),
        ensures
            final(self).wf(),
    {
        let n = self.monitors.len();
        let mut i: usize = 0;
        while i < n
            invariant
                i <= n,
                n == self.monitors@.len(),
                self.wf(),
            decreases n - i,
        {
            if str_eq(self.monitors[i].0.as_str(), port) {
                let mut pair = self.monitors.remove(i);
                let mut kept: Vec<u32> = Vec::new();
                let m = pair.1.len();
                let mut j: usize = 0;
                while j < m
                    invariant
                        j <= m,
                        m == pair.1@.len(),
                    decreases m - j,
                {
                    if pair.1[j] != monitor_id {
                        kept.push(pair.1[j]);
                    }
                    j = j + 1;
                }
                pair.1 = kept;
                self.monitors.insert(i, pair);
                return ;
            }
            i = i + 1;
        }
    }

    /// The monitors attached to an output port.
    pub fn get_monitors(&self, port: &str) -> (r: Vec<u32>)
    {
        let n = self.monitors.len();
        let mut i: usize = 0;
        while i < n
            invariant
                i <= n,
                n == self.monitors@.len(),
            decreases n - i,
        {
            if str_eq(self.monitors[i].0.as_str(), port) {
                let m = self.monitors[i].1.len();
                let mut out: Vec<u32> = Vec::new();
                let mut j: usize = 0;
                while j < m
                    invariant
                        j <= m,
                        i < self.monitors@.len(),
                        m == self.monitors@[i as int].1@.len(),
                    decreases m - j,
                {
                    out.push(self.monitors[i].1[j]);
                    j = j + 1;
                }
                return out;
            }
            i = i + 1;
        }
        Vec::new()
    }

    /// Poke one word of a memory gate's contents.
    pub fn set_memory(&mut self, addr: u32, data: Vec3vl) -> (r: Result<(), CellError>)
        requires
            old(self).wf(),
            data.well_formed(),
        ensures
            final(self).wf(),
            r is Ok <==> (old(self).operation is Memory && addr < old(
                self,
            ).operation->Memory_0.memory@.len()),
            r is Ok ==> (final(self).operation is Memory
                && final(self).operation->Memory_0.memory@ == old(
                self,
            ).operation->Memory_0.memory@.update(addr as int, data)),
            r is Err ==> *final(self) == *old(self),
            final(self).id@ == old(self).id@,
    {
        match &mut self.operation {
            Operation::Memory(memory_state) => {
                if (addr as usize) < memory_state.memory.len() {
                    memory_state.memory.set(addr as usize, data);
                    Ok(())
                } else {
                    Err(CellError::LookupMiss)
                }
            },
            _ => Err(CellError::UnknownCellType),
        }
    }
}

} // verus!
