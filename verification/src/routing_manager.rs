//! Which peer can be reached under which address.

use crate::address::SocketAddr;
use std::collections::HashMap;
use vstd::prelude::*;

verus! {

broadcast use vstd::std_specs::hash::group_hash_axioms;

/// The addresses of peers, by the number of the peer.
#[derive(Debug)]
pub struct RoutingManager {
    pub routing_table: HashMap<u128, SocketAddr>,
}

/// A table with elements added in order.
pub open spec fn extended(
    table: Map<u128, SocketAddr>,
    elements: Seq<(u128, SocketAddr)>,
) -> Map<u128, SocketAddr>
    decreases elements.len(),
{
    if elements.len() == 0 {
        table
    } else {
        extended(table, elements.drop_last()).insert(elements.last().0, elements.last().1)
    }
}

impl Default for RoutingManager {
    fn default() -> (res: Self)
        ensures
            res.routing_table@ == Map::<u128, SocketAddr>::empty(),
    {
        RoutingManager { routing_table: HashMap::new() }
    }
}

impl RoutingManager {
    /// A table without peers.
    pub fn new() -> (res: Self)
        ensures
            res.routing_table@ == Map::<u128, SocketAddr>::empty(),
    {
        Self::default()
    }

    /// Adds a peer, or gives it another address.
    pub fn add_one(&mut self, element: (u128, SocketAddr))
        ensures
            final(self).routing_table@ == old(self).routing_table@.insert(element.0, element.1),
    {
        self.routing_table.insert(element.0, element.1);
    }

    /// Adds peers, in order.
    pub fn add(&mut self, elements: Vec<(u128, SocketAddr)>)
        ensures
            final(self).routing_table@ == extended(old(self).routing_table@, elements@),
    {
        let mut i: usize = 0;
        let ghost before = self.routing_table@;
        while i < elements.len()
            invariant
                i <= elements@.len(),
                self.routing_table@ == extended(before, elements@.take(i as int)),
            decreases elements@.len() - i,
        {
            assert(elements@.take(i + 1).drop_last() =~= elements@.take(i as int));
            let element = elements[i];
            self.routing_table.insert(element.0, element.1);
            i += 1;
        }
        assert(elements@.take(i as int) =~= elements@);
    }

    /// Removes a peer, if it is there.
    pub fn remove(&mut self, uuid: &u128)
        ensures
            final(self).routing_table@ == old(self).routing_table@.remove(*uuid),
    {
        self.routing_table.remove(uuid);
    }

    /// The table as it stands.
    pub fn view(&self) -> (res: HashMap<u128, SocketAddr>)
        ensures
            res@ == self.routing_table@,
    {
        self.routing_table.clone()
    }
}

/// Removing a peer undoes adding it, where it was not there before.
pub proof fn law_remove_undoes_add(table: Map<u128, SocketAddr>, uuid: u128, address: SocketAddr)
    requires
        !table.contains_key(uuid),
    ensures
        table.insert(uuid, address).remove(uuid) == table,
{
    assert(table.insert(uuid, address).remove(uuid) =~= table);
}

/// Adding peers one by one and adding them together come to the same.
pub proof fn law_add_is_add_one_repeated(
    table: Map<u128, SocketAddr>,
    elements: Seq<(u128, SocketAddr)>,
    element: (u128, SocketAddr),
)
    ensures
        extended(table, elements.push(element)) == extended(table, elements).insert(
            element.0,
            element.1,
        ),
{
    assert(elements.push(element).drop_last() =~= elements);
}

/// Of several addresses of one peer, the one that was added last counts.
pub proof fn law_last_address_counts(
    table: Map<u128, SocketAddr>,
    elements: Seq<(u128, SocketAddr)>,
    i: int,
)
    requires
        0 <= i < elements.len(),
        forall|j: int| i < j < elements.len() ==> (#[trigger] elements[j]).0 != elements[i].0,
    ensures
        extended(table, elements).contains_key(elements[i].0),
        extended(table, elements)[elements[i].0] == elements[i].1,
    decreases elements.len(),
{
    if i < elements.len() - 1 {
        let front = elements.drop_last();
        assert forall|j: int| i < j < front.len() implies (#[trigger] front[j]).0
            != front[i].0 by {
            assert(elements[j].0 != elements[i].0);
        }
        law_last_address_counts(table, front, i);
        assert(elements[elements.len() - 1].0 != elements[i].0);
    }
}

/// Adding peers leaves the addresses of all others.
pub proof fn law_other_peers_stay(
    table: Map<u128, SocketAddr>,
    elements: Seq<(u128, SocketAddr)>,
    uuid: u128,
)
    requires
        forall|j: int| 0 <= j < elements.len() ==> (#[trigger] elements[j]).0 != uuid,
    ensures
        extended(table, elements).contains_key(uuid) <==> table.contains_key(uuid),
        table.contains_key(uuid) ==> extended(table, elements)[uuid] == table[uuid],
    decreases elements.len(),
{
    if elements.len() > 0 {
        let front = elements.drop_last();
        assert forall|j: int| 0 <= j < front.len() implies (#[trigger] front[j]).0 != uuid by {
            assert(elements[j].0 != uuid);
        }
        law_other_peers_stay(table, front, uuid);
        assert(elements[elements.len() - 1].0 != uuid);
    }
}

} // verus!
