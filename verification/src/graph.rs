//! Graphs: the entity store that owns gates and links.

use vstd::prelude::*;

use crate::errors::CellError;
use crate::gate::{Gate, PortParams};
use crate::link::{Link, LinkTarget};
use crate::operations::GateParams;
use crate::vector3vl::str_eq;

verus! {

/// A circuit graph: it owns its gates and links, may be bound as the
/// subgraph of a subcircuit gate, and may be observed (its output
/// changes are reported to the host).
pub struct Graph {
    pub id: String,
    pub gates: Vec<Gate>,
    pub links: Vec<(String, Link)>,
    pub subcircuit: Option<(String, String)>,
    pub observed: bool,
}

impl Graph {
    /// Every gate of the graph is well formed.
    pub open spec fn wf(self) -> bool {
        forall|i: int| 0 <= i < self.gates@.len() ==> (#[trigger] self.gates@[i]).wf()
    }

    /// An empty, unobserved graph.
    pub fn new(id: String) -> (r: Graph)
        ensures
            r.wf(),
            r.id@ == id@,
            r.gates@.len() == 0,
            !r.observed,
            r.subcircuit is None,
    {
        Graph { id, gates: Vec::new(), links: Vec::new(), subcircuit: None, observed: false }
    }

    pub fn get_id(&self) -> (r: String)
        ensures
            r@ == self.id@,
    {
        self.id.clone()
    }

    /// The position of a gate, by id.
    pub fn gate_index(&self, gate_id: &str) -> (r: Option<usize>)
        ensures
            r is Some ==> r->0 < self.gates@.len() && self.gates@[r->0 as int].id@ == gate_id@,
    {
        let n = self.gates.len();
        let mut i: usize = 0;
        while i < n
            invariant
                i <= n,
                n == self.gates@.len(),
            decreases n - i,
        {
            if str_eq(self.gates[i].id.as_str(), gate_id) {
                return Some(i);
            }
            i = i + 1;
        }
        None
    }

    /// A borrow of a gate, by id.
    pub fn get_gate(&self, gate_id: &str) -> (r: Result<&Gate, CellError>)
        requires
            self.wf(),
        ensures
            r is Ok ==> r->Ok_0.wf() && r->Ok_0.id@ == gate_id@,
            r is Err ==> r->Err_0 == CellError::LookupMiss,
    {
        match self.gate_index(gate_id) {
            Some(i) => Ok(&self.gates[i]),
            None => Err(CellError::LookupMiss),
        }
    }

    /// Create a gate in this graph.
    pub fn add_gate(
        &mut self,
        gate_id: String,
        cell_type: String,
        gate_params: GateParams,
        port_params: Vec<PortParams>,
    ) -> (r: Result<(), CellError>)
        requires
            old(self).wf(),
        ensures
            final(self).wf(),
            final(self).id@ == old(self).id@,
    {
        let g = match Gate::new(
            self.get_id(),
            gate_id,
            cell_type,
            gate_params,
            port_params,
        ) {
            Ok(g) => g,
            Err(e) => {
                return Err(e);
            },
        };
        self.gates.push(g);
        Ok(())
    }

    /// Record a link and the adjacency it creates: the source gate
    /// learns its new target, both endpoint gates remember the link.
    pub fn add_link(&mut self, link_id: String, source: LinkTarget, target: LinkTarget) -> (r:
        Result<(), CellError>)
        requires
            old(self).wf(),
        ensures
            final(self).wf(),
            final(self).id@ == old(self).id@,
            r is Ok ==> (final(self).links@.len() == old(self).links@.len() + 1 && {
                let l = final(self).links@.last();
                &&& l.0@ == link_id@
                &&& l.1.source.id@ == source.id@
                &&& l.1.source.port@ == source.port@
                &&& l.1.target.id@ == target.id@
                &&& l.1.target.port@ == target.port@
            }),
    {
        let si = match self.gate_index(source.id.as_str()) {
            Some(i) => i,
            None => {
                return Err(CellError::LookupMiss);
            },
        };
        if self.gate_index(target.id.as_str()).is_none() {
            return Err(CellError::LookupMiss);
        }
        self.links.push((link_id.clone(), Link { source: source.clone(), target: target.clone() }));
        let mut sg = self.gates.remove(si);
        let added = sg.add_link_to(source.port.as_str(), target.clone());
        sg.add_link(link_id.clone());
        self.gates.insert(si, sg);
        if added.is_err() {
            return added;
        }
        let ti2 = match self.gate_index(target.id.as_str()) {
            Some(i) => i,
            None => {
                return Err(CellError::LookupMiss);
            },
        };
        let mut tg = self.gates.remove(ti2);
        tg.add_link(link_id);
        self.gates.insert(ti2, tg);
        Ok(())
    }

    /// Remove a link, returning it; the endpoint gates forget it.
    pub fn remove_link(&mut self, link_id: &str) -> (r: Result<Link, CellError>)
        requires
            old(self).wf(),
        ensures
            final(self).wf(),
            final(self).id@ == old(self).id@,
            r is Ok ==> final(self).links@.len() == old(self).links@.len() - 1,
            r is Err ==> r->Err_0 == CellError::LookupMiss,
    {
        let n = self.links.len();
        let mut i: usize = 0;
        let mut found: Option<usize> = None;
        while i < n
            invariant
                i <= n,
                n == self.links@.len(),
                found is Some ==> found->0 < n,
            decreases n - i,
        {
            if found.is_none() && str_eq(self.links[i].0.as_str(), link_id) {
                found = Some(i);
            }
            i = i + 1;
        }
        let idx = match found {
            Some(i) => i,
            None => {
                return Err(CellError::LookupMiss);
            },
        };
        let (_, link) = self.links.remove(idx);
        if let Some(si) = self.gate_index(link.source.id.as_str()) {
            let mut sg = self.gates.remove(si);
            let _ = sg.remove_link_to(link.source.port.as_str(), &link.target);
            sg.remove_link(link_id);
            self.gates.insert(si, sg);
        }
        if let Some(ti) = self.gate_index(link.target.id.as_str()) {
            let mut tg = self.gates.remove(ti);
            tg.remove_link(link_id);
            self.gates.insert(ti, tg);
        }
        Ok(link)
    }

    /// Remove a gate and every link that touches it.
    pub fn remove_gate(&mut self, gate_id: &str) -> (r: Result<(), CellError>)
        requires
            old(self).wf(),
        ensures
            final(self).wf(),
            final(self).id@ == old(self).id@,
    {
        let gi = match self.gate_index(gate_id) {
            Some(i) => i,
            None => {
                return Err(CellError::LookupMiss);
            },
        };
        // gather every link with an endpoint here
        let mut incident: Vec<String> = Vec::new();
        let n = self.links.len();
        let mut i: usize = 0;
        while i < n
            invariant
                i <= n,
                n == self.links@.len(),
                self.wf(),
                self.id@ == old(self).id@,
            decreases n - i,
        {
            if str_eq(self.links[i].1.source.id.as_str(), gate_id) || str_eq(
                self.links[i].1.target.id.as_str(),
                gate_id,
            ) {
                incident.push(self.links[i].0.clone());
            }
            i = i + 1;
        }
        let m = incident.len();
        let mut j: usize = 0;
        while j < m
            invariant
                j <= m,
                m == incident@.len(),
                self.wf(),
                self.id@ == old(self).id@,
            decreases m - j,
        {
            let _ = self.remove_link(incident[j].as_str());
            j = j + 1;
        }
        let _ = gi;
        match self.gate_index(gate_id) {
            Some(gi2) => {
                let _ = self.gates.remove(gi2);
                Ok(())
            },
            None => Ok(()),
        }
    }

    /// Report this graph's output changes to the host.
    pub fn observe(&mut self)
        requires
            old(self).wf(),
        ensures
            final(self).wf(),
            final(self).observed,
            final(self).gates == old(self).gates,
            final(self).id@ == old(self).id@,
    {
        self.observed = true;
    }

    /// Stop reporting this graph's output changes.
    pub fn unobserve(&mut self)
        requires
            old(self).wf(),
        ensures
            final(self).wf(),
            !final(self).observed,
            final(self).gates == old(self).gates,
            final(self).id@ == old(self).id@,
    {
        self.observed = false;
    }

    pub fn is_observed(&self) -> (r: bool)
        ensures
            r == self.observed,
    {
        self.observed
    }

    /// Remember the subcircuit gate this graph is bound under.
    pub fn set_subcircuit(&mut self, host_graph: String, host_gate: String)
        requires
            old(self).wf(),
        ensures
            final(self).wf(),
            final(self).gates == old(self).gates,
            final(self).id@ == old(self).id@,
            final(self).subcircuit is Some,
    {
        self.subcircuit = Some((host_graph, host_gate));
    }

    /// The subcircuit gate this graph is bound under, if any.
    pub fn subcircuit(&self) -> (r: Option<(String, String)>)
        ensures
            r is Some <==> self.subcircuit is Some,
            r is Some ==> (r->0).0@ == (self.subcircuit->0).0@ && (r->0).1@ == (
            self.subcircuit->0).1@,
    {
        match &self.subcircuit {
            Some((g, gt)) => Some((g.clone(), gt.clone())),
            None => None,
        }
    }

    /// All gates of the graph, in creation order.
    pub fn gate_iter(&self) -> (r: &Vec<Gate>)
    {
        &self.gates
    }
}

} // verus!
