//! The spatial registry: the flat collection of power nodes that both the
//! propagation engine and the proximity cache read. Membership only — no
//! ownership logic beyond adding structures and looking them up.

use vstd::prelude::*;

use crate::node::PowerNode;

verus! {

/// The fatal session-setup error: power can only ever flow if exactly one
/// root source exists. Detected once at session start.
#[derive(Clone, Copy, PartialEq, Eq, Structural, Debug)]
pub enum ConfigError {
    MissingRootSource,
    DuplicateRootSource,
}

/// No two nodes share an id.
pub open spec fn ids_unique(nodes: Seq<PowerNode>) -> bool {
    forall|i: int, j: int|
        0 <= i < j < nodes.len() ==> #[trigger] nodes[i].id != #[trigger] nodes[j].id
}

/// Some node carries this id.
pub open spec fn has_node_id(nodes: Seq<PowerNode>, id: u64) -> bool {
    exists|i: int| 0 <= i < nodes.len() && #[trigger] nodes[i].id == id
}

/// The id belongs to a node whose stored flag says powered.
pub open spec fn id_powered(nodes: Seq<PowerNode>, id: u64) -> bool {
    exists|i: int| 0 <= i < nodes.len() && #[trigger] nodes[i].id == id && nodes[i].is_powered
}

/// Number of nodes marked as the root source.
pub open spec fn count_roots(nodes: Seq<PowerNode>) -> int
    decreases nodes.len(),
{
    if nodes.len() == 0 {
        0
    } else {
        count_roots(nodes.drop_last()) + if nodes.last().is_root_source {
            1int
        } else {
            0int
        }
    }
}

/// The position of the node carrying `id` (meaningful under [`ids_unique`]
/// when the id is present).
pub open spec fn position_of_id(nodes: Seq<PowerNode>, id: u64) -> crate::geom::Position {
    let i = choose|i: int| 0 <= i < nodes.len() && #[trigger] nodes[i].id == id;
    nodes[i].position
}

/// Under unique ids, any node carrying `id` stands at [`position_of_id`].
pub proof fn lemma_position_of_id(nodes: Seq<PowerNode>, id: u64, i: int)
    requires
        ids_unique(nodes),
        0 <= i < nodes.len(),
        nodes[i].id == id,
    ensures
        nodes[i].position == position_of_id(nodes, id),
{
    let j = choose|j: int| 0 <= j < nodes.len() && #[trigger] nodes[j].id == id;
    assert(j == i);
}

/// The queryable world state: every structure that takes part in power
/// logic, with a unique id per structure.
pub struct Registry {
    pub nodes: Vec<PowerNode>,
}

impl Registry {
    /// Well-formedness: ids identify structures.
    pub open spec fn wf(&self) -> bool {
        ids_unique(self.nodes@)
    }

    /// An empty registry.
    pub fn new() -> (r: Registry)
        ensures
            r.wf(),
            r.nodes@ == Seq::<PowerNode>::empty(),
    {
        Registry { nodes: Vec::new() }
    }

    pub fn len(&self) -> (n: usize)
        ensures
            n == self.nodes@.len(),
    {
        self.nodes.len()
    }

    /// Index of the node carrying `id`, if present.
    pub fn find_index_by_id(&self, id: u64) -> (r: Option<usize>)
        ensures
            match r {
                Some(i) => i < self.nodes@.len() && self.nodes@[i as int].id == id,
                None => !has_node_id(self.nodes@, id),
            },
    {
        let mut i: usize = 0;
        while i < self.nodes.len()
            invariant
                i <= self.nodes@.len(),
                forall|t: int| 0 <= t < i ==> #[trigger] self.nodes@[t].id != id,
            decreases self.nodes@.len() - i,
        {
            if self.nodes[i].id == id {
                return Some(i);
            }
            i += 1;
        }
        None
    }

    /// Add a structure. Membership only: the node is taken as given, with
    /// initial flags as the caller set them. Refused (returning `false`,
    /// registry unchanged) only when the id is already taken.
    pub fn add_node(&mut self, node: PowerNode) -> (added: bool)
        requires
            old(self).wf(),
        ensures
            final(self).wf(),
            added == !has_node_id(old(self).nodes@, node.id),
            added ==> final(self).nodes@ == old(self).nodes@.push(node),
            !added ==> final(self).nodes@ == old(self).nodes@,
    {
        match self.find_index_by_id(node.id) {
            Some(_) => false,
            None => {
                proof {
                    let pushed = self.nodes@.push(node);
                    assert forall|i: int, j: int| 0 <= i < j < pushed.len() implies #[trigger]
                        pushed[i].id != #[trigger] pushed[j].id by {
                        if j < pushed.len() - 1 {
                            assert(pushed[i] == self.nodes@[i] && pushed[j] == self.nodes@[j]);
                        } else {
                            assert(pushed[i] == self.nodes@[i]);
                            assert(!has_node_id(self.nodes@, node.id));
                        }
                    }
                }
                self.nodes.push(node);
                true
            },
        }
    }

    /// Is the structure carrying `id` currently powered? The ground truth
    /// that rendering, ability gating and animation read every frame.
    /// `false` for an id that is not present at all.
    pub fn is_powered(&self, id: u64) -> (r: bool)
        requires
            self.wf(),
        ensures
            r == id_powered(self.nodes@, id),
    {
        match self.find_index_by_id(id) {
            Some(i) => {
                proof {
                    if !self.nodes@[i as int].is_powered && id_powered(self.nodes@, id) {
                        let j = choose|j: int|
                            0 <= j < self.nodes@.len() && #[trigger] self.nodes@[j].id == id
                                && self.nodes@[j].is_powered;
                        assert(j == i as int);
                    }
                }
                self.nodes[i].is_powered
            },
            None => false,
        }
    }

    /// Session-setup check: power is well defined only with exactly one
    /// root source. Anything else is the fatal configuration error —
    /// with no root, nothing can ever become powered.
    pub fn validate_root(&self) -> (r: Result<(), ConfigError>)
        ensures
            r is Ok <==> count_roots(self.nodes@) == 1,
            r == Err::<(), ConfigError>(ConfigError::MissingRootSource) <==> count_roots(
                self.nodes@,
            ) == 0,
            r == Err::<(), ConfigError>(ConfigError::DuplicateRootSource) <==> count_roots(
                self.nodes@,
            ) >= 2,
    {
        let mut roots: usize = 0;
        let mut i: usize = 0;
        while i < self.nodes.len()
            invariant
                i <= self.nodes@.len(),
                roots <= i,
                roots == count_roots(self.nodes@.take(i as int)),
            decreases self.nodes@.len() - i,
        {
            proof {
                assert(self.nodes@.take(i + 1).drop_last() =~= self.nodes@.take(i as int));
                assert(self.nodes@.take(i + 1).last() == self.nodes@[i as int]);
            }
            if self.nodes[i].is_root_source {
                roots += 1;
            }
            i += 1;
        }
        proof {
            assert(self.nodes@.take(self.nodes@.len() as int) =~= self.nodes@);
        }
        if roots == 0 {
            Err(ConfigError::MissingRootSource)
        } else if roots == 1 {
            Ok(())
        } else {
            Err(ConfigError::DuplicateRootSource)
        }
    }
}

} // verus!
