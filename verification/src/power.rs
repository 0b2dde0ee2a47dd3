//! The power propagation engine.
//!
//! [`recompute`] derives, for every node of the registry, whether it is
//! powered: the root source is always powered, and a consumer is powered
//! exactly when a chain of in-range, distinct supplying structures connects
//! it to the root. The engine iterates "mark newly powered nodes, rescan"
//! until a full pass changes nothing, so power crosses a whole relay chain
//! within a single call rather than one hop per trigger event.

use vstd::prelude::*;

use crate::node::{supplies, can_supply, PowerNode};

verus! {

/// `chain` is a path of node indices that carries power: it starts at a
/// root source, and each node strictly covers the next.
pub open spec fn valid_chain(nodes: Seq<PowerNode>, chain: Seq<int>) -> bool {
    &&& chain.len() > 0
    &&& forall|k: int| 0 <= k < chain.len() ==> 0 <= #[trigger] chain[k] < nodes.len()
    &&& nodes[chain[0]].is_root_source
    &&& forall|k: int| 1 <= k < chain.len() ==> supplies(
        nodes[chain[k - 1]],
        nodes[#[trigger] chain[k]],
    )
}

/// Node `i` is powered in the fixed point: some supply chain from the root
/// reaches it. The root itself is powered by the one-element chain.
pub open spec fn powered_at(nodes: Seq<PowerNode>, i: int) -> bool {
    exists|chain: Seq<int>| #[trigger] valid_chain(nodes, chain) && chain.last() == i
}

/// The registry with every `is_powered` flag set to its fixed-point value.
/// [`recompute`] computes exactly this.
pub open spec fn settled(nodes: Seq<PowerNode>) -> Seq<PowerNode> {
    Seq::new(nodes.len(), |i: int| nodes[i].with_flag(powered_at(nodes, i)))
}

/// Two registries agree on everything the fixed point depends on
/// (identity, position, role, root flag); only `is_powered` may differ.
pub open spec fn same_layouts(a: Seq<PowerNode>, b: Seq<PowerNode>) -> bool {
    &&& a.len() == b.len()
    &&& forall|i: int| 0 <= i < a.len() ==> #[trigger] a[i].layout() == b[i].layout()
}

/// One entry of the change report that [`recompute`] hands back so that
/// downstream systems (render tint, ability gates) can react to
/// transitions without diffing the registry themselves.
#[derive(Clone, Copy, PartialEq, Eq, Structural, Debug)]
pub struct PowerTransition {
    pub id: u64,
    pub became_powered: bool,
}

/// The transitions that settling `nodes` produces, in registry order: one
/// entry for every node whose stored flag differs from its fixed point.
pub open spec fn transitions_upto(nodes: Seq<PowerNode>, k: int) -> Seq<PowerTransition>
    decreases k,
{
    if k <= 0 {
        Seq::empty()
    } else {
        let rest = transitions_upto(nodes, k - 1);
        if powered_at(nodes, k - 1) != nodes[k - 1].is_powered {
            rest.push(
                PowerTransition {
                    id: nodes[k - 1].id,
                    became_powered: powered_at(nodes, k - 1),
                },
            )
        } else {
            rest
        }
    }
}

/// All transitions of one settling of `nodes`.
pub open spec fn transition_seq(nodes: Seq<PowerNode>) -> Seq<PowerTransition> {
    transitions_upto(nodes, nodes.len() as int)
}

// ---------------------------------------------------------------------
// Facts about supply chains.
// ---------------------------------------------------------------------

/// A root source is powered: its own one-element chain reaches it.
pub proof fn lemma_root_powered(nodes: Seq<PowerNode>, i: int)
    requires
        0 <= i < nodes.len(),
        nodes[i].is_root_source,
    ensures
        powered_at(nodes, i),
{
    let chain: Seq<int> = seq![i];
    assert(valid_chain(nodes, chain));
    assert(chain.last() == i);
}

/// A valid chain extended by one covered consumer is still a valid chain.
proof fn lemma_chain_extend(nodes: Seq<PowerNode>, chain: Seq<int>, i: int)
    requires
        valid_chain(nodes, chain),
        0 <= i < nodes.len(),
        supplies(nodes[chain.last()], nodes[i]),
    ensures
        valid_chain(nodes, chain.push(i)),
        chain.push(i).last() == i,
{
    let longer = chain.push(i);
    assert forall|k: int| 1 <= k < longer.len() implies supplies(
        nodes[longer[k - 1]],
        nodes[#[trigger] longer[k]],
    ) by {
        if k < longer.len() - 1 {
            assert(longer[k - 1] == chain[k - 1] && longer[k] == chain[k]);
        } else {
            assert(longer[k - 1] == chain.last() && longer[k] == i);
        }
    }
}

/// Single-step propagation law: a powered structure powers every distinct
/// consumer strictly inside its radius.
pub proof fn lemma_supply_step(nodes: Seq<PowerNode>, j: int, i: int)
    requires
        0 <= j < nodes.len(),
        0 <= i < nodes.len(),
        powered_at(nodes, j),
        supplies(nodes[j], nodes[i]),
    ensures
        powered_at(nodes, i),
{
    let chain = choose|chain: Seq<int>| #[trigger] valid_chain(nodes, chain) && chain.last() == j;
    lemma_chain_extend(nodes, chain, i);
}

/// The boundary is strict, and power never appears from nowhere: a
/// non-root node that no structure covers — for instance a consumer at
/// exactly `distance == radius` from every source — is unpowered in the
/// fixed point.
pub proof fn lemma_unsupplied_unpowered(nodes: Seq<PowerNode>, i: int)
    requires
        0 <= i < nodes.len(),
        !nodes[i].is_root_source,
        forall|j: int| 0 <= j < nodes.len() ==> !supplies(#[trigger] nodes[j], nodes[i]),
    ensures
        !powered_at(nodes, i),
{
    if powered_at(nodes, i) {
        let chain = choose|chain: Seq<int>|
            #[trigger] valid_chain(nodes, chain) && chain.last() == i;
        if chain.len() == 1 {
            assert(nodes[chain[0]].is_root_source);
        } else {
            let prev: int = chain[chain.len() - 2];
            assert(supplies(nodes[prev], nodes[chain[chain.len() - 1]]));
        }
    }
}

/// The fixed point reads only node layouts, never the stored flags: two
/// registries with the same layouts power exactly the same indices.
pub proof fn lemma_powered_ignores_flags(a: Seq<PowerNode>, b: Seq<PowerNode>)
    requires
        same_layouts(a, b),
    ensures
        forall|i: int| #[trigger] powered_at(a, i) == powered_at(b, i),
{
    assert forall|i: int| #[trigger] powered_at(a, i) == powered_at(b, i) by {
        if powered_at(a, i) {
            let chain = choose|chain: Seq<int>|
                #[trigger] valid_chain(a, chain) && chain.last() == i;
            lemma_chain_transfer(a, b, chain);
        }
        if powered_at(b, i) {
            let chain = choose|chain: Seq<int>|
                #[trigger] valid_chain(b, chain) && chain.last() == i;
            lemma_chain_transfer(b, a, chain);
        }
    }
}

/// A chain stays valid when the registry is swapped for one with the same
/// layouts.
proof fn lemma_chain_transfer(a: Seq<PowerNode>, b: Seq<PowerNode>, chain: Seq<int>)
    requires
        a.len() == b.len(),
        forall|i: int| 0 <= i < a.len() ==> #[trigger] a[i].layout() == b[i].layout(),
        valid_chain(a, chain),
    ensures
        valid_chain(b, chain),
{
    assert(b[chain[0]].is_root_source == a[chain[0]].is_root_source) by {
        assert(a[chain[0]].layout() == b[chain[0]].layout());
    }
    assert forall|k: int| 1 <= k < chain.len() implies supplies(
        b[chain[k - 1]],
        b[#[trigger] chain[k]],
    ) by {
        assert(supplies(a[chain[k - 1]], a[chain[k]]));
        assert(a[chain[k - 1]].layout() == b[chain[k - 1]].layout());
        assert(a[chain[k]].layout() == b[chain[k]].layout());
    }
}

/// Settling twice is the same as settling once: `recompute` run on its own
/// output reports no transition and changes no flag.
pub proof fn lemma_settled_idempotent(nodes: Seq<PowerNode>)
    ensures
        settled(settled(nodes)) == settled(nodes),
        transition_seq(settled(nodes)) == Seq::<PowerTransition>::empty(),
{
    assert(same_layouts(settled(nodes), nodes));
    lemma_powered_ignores_flags(settled(nodes), nodes);
    assert(settled(settled(nodes)) =~= settled(nodes));
    lemma_no_transitions_when_settled(nodes, nodes.len() as int);
}

/// On an already settled registry no prefix produces a transition.
proof fn lemma_no_transitions_when_settled(nodes: Seq<PowerNode>, k: int)
    requires
        k <= nodes.len(),
    ensures
        transitions_upto(settled(nodes), k) == Seq::<PowerTransition>::empty(),
    decreases k,
{
    if k > 0 {
        lemma_no_transitions_when_settled(nodes, k - 1);
        assert(same_layouts(settled(nodes), nodes));
        lemma_powered_ignores_flags(settled(nodes), nodes);
        assert(settled(nodes)[k - 1].is_powered == powered_at(nodes, k - 1));
    }
}

// ---------------------------------------------------------------------
// The mark table the engine iterates on.
// ---------------------------------------------------------------------

/// Every marked index really is powered in the fixed point.
pub open spec fn marks_sound(nodes: Seq<PowerNode>, marks: Seq<bool>) -> bool {
    forall|i: int| 0 <= i < marks.len() && #[trigger] marks[i] ==> powered_at(nodes, i)
}

/// Every root source is marked.
pub open spec fn roots_marked(nodes: Seq<PowerNode>, marks: Seq<bool>) -> bool {
    forall|i: int| 0 <= i < nodes.len() && #[trigger] nodes[i].is_root_source ==> marks[i]
}

/// Some marked structure covers node `i`.
pub open spec fn has_marked_supplier(nodes: Seq<PowerNode>, marks: Seq<bool>, i: int) -> bool {
    exists|j: int| 0 <= j < nodes.len() && #[trigger] marks[j] && supplies(nodes[j], nodes[i])
}

/// A full pass changes nothing: everything a marked structure covers is
/// already marked.
pub open spec fn supply_closed(nodes: Seq<PowerNode>, marks: Seq<bool>) -> bool {
    forall|i: int|
        0 <= i < nodes.len() && #[trigger] has_marked_supplier(nodes, marks, i) ==> marks[i]
}

/// A sound, root-covering, supply-closed mark table contains every node of
/// the fixed point: chains cannot escape a closed table.
proof fn lemma_chain_marked(nodes: Seq<PowerNode>, marks: Seq<bool>, chain: Seq<int>)
    requires
        marks.len() == nodes.len(),
        roots_marked(nodes, marks),
        supply_closed(nodes, marks),
        valid_chain(nodes, chain),
    ensures
        marks[chain.last()],
    decreases chain.len(),
{
    if chain.len() == 1 {
        assert(nodes[chain[0]].is_root_source);
    } else {
        let prefix = chain.drop_last();
        assert(valid_chain(nodes, prefix)) by {
            assert forall|k: int| 1 <= k < prefix.len() implies supplies(
                nodes[prefix[k - 1]],
                nodes[#[trigger] prefix[k]],
            ) by {
                assert(prefix[k - 1] == chain[k - 1] && prefix[k] == chain[k]);
                assert(supplies(nodes[chain[k - 1]], nodes[chain[k]]));
            }
        }
        lemma_chain_marked(nodes, marks, prefix);
        let last: int = chain.last();
        let prev: int = prefix.last();
        assert(supplies(nodes[chain[chain.len() - 2]], nodes[chain[chain.len() - 1]]));
        assert(prev == chain[chain.len() - 2]);
        assert(has_marked_supplier(nodes, marks, last)) by {
            assert(marks[prev] && supplies(nodes[prev], nodes[last]));
        }
    }
}

/// Completeness of a finished iteration: the marks of a sound, closed,
/// root-covering table coincide with the fixed point.
proof fn lemma_marks_complete(nodes: Seq<PowerNode>, marks: Seq<bool>)
    requires
        marks.len() == nodes.len(),
        roots_marked(nodes, marks),
        supply_closed(nodes, marks),
    ensures
        forall|i: int| 0 <= i < nodes.len() && #[trigger] powered_at(nodes, i) ==> marks[i],
{
    assert forall|i: int| 0 <= i < nodes.len() && #[trigger] powered_at(nodes, i)
        implies marks[i] by {
        let chain = choose|chain: Seq<int>|
            #[trigger] valid_chain(nodes, chain) && chain.last() == i;
        lemma_chain_marked(nodes, marks, chain);
    }
}

// ---------------------------------------------------------------------
// Counting marks, for termination of the fixed-point iteration.
// ---------------------------------------------------------------------

/// How many entries of `s` are set.
pub open spec fn count_true(s: Seq<bool>) -> int
    decreases s.len(),
{
    if s.len() == 0 {
        0
    } else {
        count_true(s.drop_last()) + if s.last() {
            1int
        } else {
            0int
        }
    }
}

proof fn lemma_count_true_bounds(s: Seq<bool>)
    ensures
        0 <= count_true(s) <= s.len(),
    decreases s.len(),
{
    if s.len() > 0 {
        lemma_count_true_bounds(s.drop_last());
    }
}

/// Pointwise-larger mark tables have at least as many set entries, and
/// strictly more if any entry is newly set.
proof fn lemma_count_true_mono(a: Seq<bool>, b: Seq<bool>)
    requires
        a.len() == b.len(),
        forall|i: int| 0 <= i < a.len() && #[trigger] a[i] ==> b[i],
    ensures
        count_true(a) <= count_true(b),
        (exists|i: int| 0 <= i < a.len() && !a[i] && #[trigger] b[i]) ==> count_true(a)
            < count_true(b),
    decreases a.len(),
{
    if a.len() > 0 {
        let a1 = a.drop_last();
        let b1 = b.drop_last();
        assert(forall|i: int| 0 <= i < a1.len() && #[trigger] a1[i] ==> b1[i]) by {
            assert(forall|i: int| 0 <= i < a1.len() ==> a1[i] == a[i] && #[trigger] b1[i] == b[i]);
        }
        lemma_count_true_mono(a1, b1);
        if exists|i: int| 0 <= i < a.len() && !a[i] && #[trigger] b[i] {
            let w = choose|i: int| 0 <= i < a.len() && !a[i] && #[trigger] b[i];
            if w == a.len() - 1 {
                assert(!a.last() && b.last());
            } else {
                assert(!a1[w] && b1[w]);
            }
        }
    }
}

// ---------------------------------------------------------------------
// The engine.
// ---------------------------------------------------------------------

/// First marked structure that covers node `i`, if any.
fn find_marked_supplier(nodes: &Vec<PowerNode>, marks: &Vec<bool>, i: usize) -> (r: Option<usize>)
    requires
        marks@.len() == nodes@.len(),
        i < nodes@.len(),
    ensures
        match r {
            Some(j) => j < nodes@.len() && marks@[j as int] && supplies(
                nodes@[j as int],
                nodes@[i as int],
            ),
            None => !has_marked_supplier(nodes@, marks@, i as int),
        },
{
    let mut j: usize = 0;
    while j < nodes.len()
        invariant
            marks@.len() == nodes@.len(),
            i < nodes@.len(),
            j <= nodes@.len(),
            forall|t: int|
                0 <= t < j ==> !(#[trigger] marks@[t] && supplies(nodes@[t], nodes@[i as int])),
        decreases nodes@.len() - j,
    {
        if marks[j] && can_supply(&nodes[j], &nodes[i]) {
            return Some(j);
        }
        j += 1;
    }
    None
}

/// One full propagation pass: marks every yet-unmarked node that a marked
/// structure covers. Reports whether anything changed; an unchanged pass
/// certifies that the table is supply-closed, i.e. the fixed point.
fn propagation_pass(nodes: &Vec<PowerNode>, marks: &mut Vec<bool>) -> (changed: bool)
    requires
        old(marks)@.len() == nodes@.len(),
        marks_sound(nodes@, old(marks)@),
    ensures
        final(marks)@.len() == nodes@.len(),
        marks_sound(nodes@, final(marks)@),
        forall|t: int| 0 <= t < nodes@.len() && #[trigger] old(marks)@[t] ==> final(marks)@[t],
        !changed ==> final(marks)@ == old(marks)@ && supply_closed(nodes@, final(marks)@),
        changed ==> exists|t: int|
            0 <= t < nodes@.len() && !old(marks)@[t] && #[trigger] final(marks)@[t],
{
    let ghost snap = marks@;
    let mut changed: bool = false;
    let mut i: usize = 0;
    while i < nodes.len()
        invariant
            marks@.len() == nodes@.len(),
            i <= nodes@.len(),
            marks_sound(nodes@, marks@),
            forall|t: int| 0 <= t < nodes@.len() && #[trigger] snap[t] ==> marks@[t],
            changed ==> exists|t: int|
                0 <= t < nodes@.len() && !snap[t] && #[trigger] marks@[t],
            !changed ==> marks@ == snap,
            !changed ==> forall|t: int|
                0 <= t < i ==> !#[trigger] has_marked_supplier(nodes@, marks@, t) || marks@[t],
        decreases nodes@.len() - i,
    {
        if !marks[i] {
            match find_marked_supplier(nodes, marks, i) {
                Some(j) => {
                    proof {
                        let chain = choose|chain: Seq<int>|
                            #[trigger] valid_chain(nodes@, chain) && chain.last() == j;
                        lemma_chain_extend(nodes@, chain, i as int);
                    }
                    marks[i] = true;
                    changed = true;
                },
                None => {},
            }
        }
        i += 1;
    }
    changed
}

/// Recompute the powered flag of every node from scratch by fixed-point
/// iteration, and report every node whose flag changed. The result depends
/// only on positions, roles and the root flag, never on the flags the
/// registry came in with, so a second call right after is a no-op.
pub fn recompute(nodes: &mut Vec<PowerNode>) -> (changes: Vec<PowerTransition>)
    ensures
        final(nodes)@ == settled(old(nodes)@),
        changes@ == transition_seq(old(nodes)@),
{
    let ghost orig = nodes@;
    let n: usize = nodes.len();

    let mut marks: Vec<bool> = Vec::new();
    let mut i: usize = 0;
    while i < n
        invariant
            nodes@ == orig,
            n == nodes@.len(),
            i <= n,
            marks@.len() == i,
            forall|t: int| 0 <= t < i ==> #[trigger] marks@[t] == nodes@[t].is_root_source,
        decreases n - i,
    {
        marks.push(nodes[i].is_root_source);
        i += 1;
    }
    proof {
        assert forall|t: int| 0 <= t < marks@.len() && #[trigger] marks@[t]
            implies powered_at(nodes@, t) by {
            lemma_root_powered(nodes@, t);
        }
        lemma_count_true_bounds(marks@);
    }

    let mut done: bool = false;
    while !done
        invariant
            nodes@ == orig,
            n == nodes@.len(),
            marks@.len() == n,
            marks_sound(nodes@, marks@),
            roots_marked(nodes@, marks@),
            0 <= count_true(marks@) <= n,
            done ==> supply_closed(nodes@, marks@),
        decreases n - count_true(marks@) + if done {
            0int
        } else {
            1int
        },
    {
        let ghost pre = marks@;
        let changed = propagation_pass(nodes, &mut marks);
        proof {
            lemma_count_true_mono(pre, marks@);
            lemma_count_true_bounds(marks@);
        }
        if !changed {
            done = true;
        }
    }
    proof {
        lemma_marks_complete(nodes@, marks@);
        assert(forall|t: int|
            0 <= t < n ==> #[trigger] marks@[t] == powered_at(nodes@, t));
    }

    let mut changes: Vec<PowerTransition> = Vec::new();
    let mut i: usize = 0;
    while i < n
        invariant
            n == orig.len(),
            nodes@.len() == n,
            marks@.len() == n,
            i <= n,
            forall|t: int| 0 <= t < n ==> #[trigger] marks@[t] == powered_at(orig, t),
            forall|t: int| i <= t < n ==> #[trigger] nodes@[t] == orig[t],
            forall|t: int|
                0 <= t < i ==> #[trigger] nodes@[t] == orig[t].with_flag(powered_at(orig, t)),
            changes@ == transitions_upto(orig, i as int),
        decreases n - i,
    {
        let new_flag: bool = marks[i];
        if nodes[i].is_powered != new_flag {
            changes.push(PowerTransition { id: nodes[i].id, became_powered: new_flag });
        }
        nodes[i].is_powered = new_flag;
        i += 1;
    }
    proof {
        assert(nodes@ =~= settled(orig));
    }
    changes
}

} // verus!
