//! Links: directed edges from an output port of one gate to an input
//! port of another.

use vstd::prelude::*;

verus! {

/// One endpoint of a link: a gate and one of its ports.
pub struct LinkTarget {
    pub id: String,
    pub port: String,
    pub magnet: String,
}

impl Clone for LinkTarget {
    /// An exact copy of the endpoint.
    fn clone(&self) -> (r: Self)
        ensures
            r.id@ == self.id@,
            r.port@ == self.port@,
            r.magnet@ == self.magnet@,
    {
        LinkTarget { id: self.id.clone(), port: self.port.clone(), magnet: self.magnet.clone() }
    }
}

/// A directed edge from an output port to an input port.
pub struct Link {
    pub source: LinkTarget,
    pub target: LinkTarget,
}

impl Clone for Link {
    /// An exact copy of the edge.
    fn clone(&self) -> (r: Self)
        ensures
            r.source.id@ == self.source.id@,
            r.source.port@ == self.source.port@,
            r.target.id@ == self.target.id@,
            r.target.port@ == self.target.port@,
    {
        Link { source: self.source.clone(), target: self.target.clone() }
    }
}

} // verus!
