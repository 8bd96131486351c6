//! Inventories: per-entity counted stacks of stackable resource kinds, plus a
//! list of non-stackable unique item entities.
use vstd::prelude::*;

verus! {

/// Handle to a world entity (agent, container, item, structure). The world
/// hands these out; the core only stores and compares them.
pub type EntityId = u64;

/// Marker for an item entity.
pub struct Item;

/// Identifier of a crafting recipe.
pub type CraftRecipeId = u32;

/// Stackable resource kinds.
#[derive(Clone, Copy, Debug, Hash, PartialEq, Eq, Structural)]
pub enum ItemKind {
    Rock,
}

/// Kinds of items that never stack; each one is its own entity.
#[derive(Clone, Copy, Debug)]
pub enum UniqueItemKind {
    IronSword,
}

/// Wear state of a unique item.
pub struct Durability {
    pub current: u16,
    pub max: u16,
}

/// How many units of `kind` the entries of `s` hold in total.
pub open spec fn count_of(s: Seq<(ItemKind, u32)>, kind: ItemKind) -> int
    decreases s.len(),
{
    if s.len() == 0 {
        0
    } else {
        count_of(s.drop_last(), kind) + if s.last().0 == kind {
            s.last().1 as int
        } else {
            0int
        }
    }
}

/// A sequence with no entry of `kind` counts zero for it.
pub proof fn lemma_count_of_absent(s: Seq<(ItemKind, u32)>, kind: ItemKind)
    requires
        forall|i: int| 0 <= i < s.len() ==> (#[trigger] s[i]).0 != kind,
    ensures
        count_of(s, kind) == 0,
    decreases s.len(),
{
    if s.len() > 0 {
        lemma_count_of_absent(s.drop_last(), kind);
    }
}

/// Appending an entry adds its quantity to the count of its kind and leaves
/// other kinds unchanged.
pub proof fn lemma_count_of_push(s: Seq<(ItemKind, u32)>, e: (ItemKind, u32), kind: ItemKind)
    ensures
        count_of(s.push(e), kind) == count_of(s, kind) + if e.0 == kind {
            e.1 as int
        } else {
            0int
        },
{
    assert(s.push(e).drop_last() =~= s);
}

/// Replacing the entry at `i` shifts the counts by the difference between the
/// new and the old entry.
pub proof fn lemma_count_of_update(
    s: Seq<(ItemKind, u32)>,
    i: int,
    e: (ItemKind, u32),
    kind: ItemKind,
)
    requires
        0 <= i < s.len(),
    ensures
        count_of(s.update(i, e), kind) == count_of(s, kind) - (if s[i].0 == kind {
            s[i].1 as int
        } else {
            0int
        }) + (if e.0 == kind {
            e.1 as int
        } else {
            0int
        }),
    decreases s.len(),
{
    if i == s.len() - 1 {
        assert(s.update(i, e).drop_last() =~= s.drop_last());
    } else {
        assert(s.update(i, e).drop_last() =~= s.drop_last().update(i, e));
        lemma_count_of_update(s.drop_last(), i, e, kind);
    }
}

/// Removing the entry at `i` subtracts its quantity from the count of its
/// kind and leaves other kinds unchanged.
pub proof fn lemma_count_of_remove(s: Seq<(ItemKind, u32)>, i: int, kind: ItemKind)
    requires
        0 <= i < s.len(),
    ensures
        count_of(s.remove(i), kind) == count_of(s, kind) - if s[i].0 == kind {
            s[i].1 as int
        } else {
            0int
        },
    decreases s.len(),
{
    if i == s.len() - 1 {
        assert(s.remove(i) =~= s.drop_last());
    } else {
        assert(s.remove(i).drop_last() =~= s.drop_last().remove(i));
        lemma_count_of_remove(s.drop_last(), i, kind);
    }
}

/// A counted store of stackable items plus a list of unique item entities.
/// Owned by whichever entity carries it (an agent or a container).
#[derive(Clone)]
pub struct Inventory {
    stackable_items: Vec<(ItemKind, u32)>,
    unique_items: Vec<EntityId>,
}

impl Inventory {
    /// Each stackable kind appears in at most one entry, and no entry is empty.
    pub closed spec fn wf(&self) -> bool {
        &&& forall|i: int, j: int|
            0 <= i < j < self.stackable_items@.len() ==> (#[trigger] self.stackable_items@[i]).0
                != (#[trigger] self.stackable_items@[j]).0
        &&& forall|i: int|
            0 <= i < self.stackable_items@.len() ==> (#[trigger] self.stackable_items@[i]).1 > 0
    }

    /// How many units of `kind` this inventory holds.
    pub closed spec fn count_spec(&self, kind: ItemKind) -> int {
        count_of(self.stackable_items@, kind)
    }

    /// The unique item entities, in insertion order.
    pub closed spec fn uniques(&self) -> Seq<EntityId> {
        self.unique_items@
    }

    /// With unique kinds, a count never exceeds the one `u32` entry it sits in.
    pub proof fn lemma_count_fits(&self, kind: ItemKind)
        requires
            self.wf(),
        ensures
            0 <= self.count_spec(kind) <= u32::MAX,
    {
        lemma_unique_count_bound(self.stackable_items@, kind);
    }

    pub fn new() -> (inv: Inventory)
        ensures
            inv.wf(),
            forall|k: ItemKind| inv.count_spec(k) == 0,
            inv.uniques() =~= Seq::<EntityId>::empty(),
    {
        Inventory { stackable_items: Vec::new(), unique_items: Vec::new() }
    }

    /// Add `quantity` units of `kind`.
    pub fn add(&mut self, kind: ItemKind, quantity: u32)
        requires
            old(self).wf(),
            old(self).count_spec(kind) + quantity <= u32::MAX,
        ensures
            final(self).wf(),
            final(self).count_spec(kind) == old(self).count_spec(kind) + quantity,
            forall|k: ItemKind| k != kind ==> final(self).count_spec(k) == old(self).count_spec(k),
            final(self).uniques() == old(self).uniques(),
    {
        if quantity == 0 {
            return ;
        }
        let ghost s0 = self.stackable_items@;
        let mut i: usize = 0;
        while i < self.stackable_items.len()
            invariant
                *self == *old(self),
                i <= s0.len(),
                forall|j: int| 0 <= j < i ==> (#[trigger] s0[j]).0 != kind,
            decreases s0.len() - i,
        {
            if self.stackable_items[i].0 == kind {
                proof {
                    self.lemma_count_fits(kind);
                    lemma_unique_count_is_entry(s0, i as int, kind);
                }
                let q = self.stackable_items[i].1;
                let ghost e = (kind, (q + quantity) as u32);
                proof {
                    assert forall|k: ItemKind|
                        count_of(s0.update(i as int, e), k) == count_of(s0, k) - (if s0[
                            i as int
                        ].0 == k {
                            s0[i as int].1 as int
                        } else {
                            0int
                        }) + (if e.0 == k {
                            e.1 as int
                        } else {
                            0int
                        }) by {
                        lemma_count_of_update(s0, i as int, e, k);
                    }
                }
                self.stackable_items.set(i, (kind, q + quantity));
                return ;
            }
            i += 1;
        }
        proof {
            lemma_count_of_absent(s0, kind);
            assert forall|k: ItemKind|
                count_of(s0.push((kind, quantity)), k) == count_of(s0, k) + (if k == kind {
                    quantity as int
                } else {
                    0int
                }) by {
                lemma_count_of_push(s0, (kind, quantity), k);
            }
        }
        self.stackable_items.push((kind, quantity));
    }

    /// Remove up to `quantity` units of `kind`. Returns true exactly when the
    /// inventory had a non-empty stack of `kind` holding at least `quantity`,
    /// in which case that much is removed; otherwise nothing changes.
    pub fn remove(&mut self, kind: &ItemKind, quantity: u32) -> (removed: bool)
        requires
            old(self).wf(),
        ensures
            final(self).wf(),
            removed == (old(self).count_spec(*kind) >= quantity && old(self).count_spec(*kind) > 0),
            removed ==> final(self).count_spec(*kind) == old(self).count_spec(*kind) - quantity,
            !removed ==> final(self).count_spec(*kind) == old(self).count_spec(*kind),
            forall|k: ItemKind| k != *kind ==> final(self).count_spec(k) == old(self).count_spec(k),
            final(self).uniques() == old(self).uniques(),
    {
        let ghost s0 = self.stackable_items@;
        let mut i: usize = 0;
        while i < self.stackable_items.len()
            invariant
                *self == *old(self),
                i <= s0.len(),
                forall|j: int| 0 <= j < i ==> (#[trigger] s0[j]).0 != *kind,
            decreases s0.len() - i,
        {
            if self.stackable_items[i].0 == *kind {
                let current = self.stackable_items[i].1;
                proof {
                    lemma_unique_count_is_entry(s0, i as int, *kind);
                }
                if current >= quantity {
                    let left = current - quantity;
                    if left == 0 {
                        proof {
                            assert forall|k: ItemKind|
                                count_of(s0.remove(i as int), k) == count_of(s0, k) - (if s0[
                                    i as int
                                ].0 == k {
                                    s0[i as int].1 as int
                                } else {
                                    0int
                                }) by {
                                lemma_count_of_remove(s0, i as int, k);
                            }
                        }
                        self.stackable_items.remove(i);
                    } else {
                        proof {
                            assert forall|k: ItemKind|
                                count_of(s0.update(i as int, (*kind, left)), k) == count_of(s0, k)
                                    - (if s0[i as int].0 == k {
                                    s0[i as int].1 as int
                                } else {
                                    0int
                                }) + (if *kind == k {
                                    left as int
                                } else {
                                    0int
                                }) by {
                                lemma_count_of_update(s0, i as int, (*kind, left), k);
                            }
                        }
                        self.stackable_items.set(i, (*kind, left));
                    }
                    return true;
                } else {
                    return false;
                }
            }
            i += 1;
        }
        proof {
            lemma_count_of_absent(s0, *kind);
        }
        false
    }

    /// How many units of `kind` are held.
    pub fn count(&self, kind: &ItemKind) -> (n: u32)
        requires
            self.wf(),
        ensures
            n == self.count_spec(*kind),
    {
        let ghost s0 = self.stackable_items@;
        let mut i: usize = 0;
        while i < self.stackable_items.len()
            invariant
                i <= s0.len(),
                forall|j: int| 0 <= j < i ==> (#[trigger] s0[j]).0 != *kind,
            decreases s0.len() - i,
        {
            if self.stackable_items[i].0 == *kind {
                proof {
                    lemma_unique_count_is_entry(s0, i as int, *kind);
                }
                return self.stackable_items[i].1;
            }
            i += 1;
        }
        proof {
            lemma_count_of_absent(s0, *kind);
        }
        0
    }

    /// Whether at least `quantity` units of `kind` are held.
    pub fn has_enough_item(&self, kind: ItemKind, quantity: u32) -> (enough: bool)
        requires
            self.wf(),
        ensures
            enough == (self.count_spec(kind) >= quantity),
    {
        self.count(&kind) >= quantity
    }

    /// Record a unique item entity.
    pub fn add_unique_item(&mut self, item_entity: EntityId)
        requires
            old(self).wf(),
        ensures
            final(self).wf(),
            final(self).uniques() == old(self).uniques().push(item_entity),
            forall|k: ItemKind| final(self).count_spec(k) == old(self).count_spec(k),
    {
        self.unique_items.push(item_entity);
    }

    /// Remove the first occurrence of a unique item entity; returns true
    /// exactly when the entity was present.
    pub fn remove_unique_item(&mut self, item_entity: EntityId) -> (removed: bool)
        requires
            old(self).wf(),
        ensures
            final(self).wf(),
            removed == old(self).uniques().contains(item_entity),
            removed ==> exists|i: int|
                {
                    &&& 0 <= i < old(self).uniques().len()
                    &&& old(self).uniques()[i] == item_entity
                    &&& (forall|j: int| 0 <= j < i ==> old(self).uniques()[j] != item_entity)
                    &&& final(self).uniques() == old(self).uniques().remove(i)
                },
            !removed ==> final(self).uniques() == old(self).uniques(),
            forall|k: ItemKind| final(self).count_spec(k) == old(self).count_spec(k),
    {
        let ghost u0 = self.unique_items@;
        let mut i: usize = 0;
        while i < self.unique_items.len()
            invariant
                *self == *old(self),
                i <= u0.len(),
                forall|j: int| 0 <= j < i ==> u0[j] != item_entity,
            decreases u0.len() - i,
        {
            if self.unique_items[i] == item_entity {
                self.unique_items.remove(i);
                proof {
                    let wi = i as int;
                    assert(u0[wi] == item_entity);
                    assert({
                        &&& 0 <= wi < u0.len()
                        &&& u0[wi] == item_entity
                        &&& (forall|j: int| 0 <= j < wi ==> u0[j] != item_entity)
                        &&& self.unique_items@ == u0.remove(wi)
                    });
                }
                return true;
            }
            i += 1;
        }
        false
    }
}

/// In a well-formed entry list the count of a kind equals the quantity of the
/// one entry holding it.
proof fn lemma_unique_count_is_entry(s: Seq<(ItemKind, u32)>, i: int, kind: ItemKind)
    requires
        0 <= i < s.len(),
        s[i].0 == kind,
        forall|a: int, b: int| 0 <= a < b < s.len() ==> (#[trigger] s[a]).0 != (#[trigger] s[b]).0,
    ensures
        count_of(s, kind) == s[i].1 as int,
    decreases s.len(),
{
    if i == s.len() - 1 {
        lemma_count_of_absent(s.drop_last(), kind);
    } else {
        lemma_unique_count_is_entry(s.drop_last(), i, kind);
    }
}

/// In an entry list with unique kinds every count fits in a `u32`.
proof fn lemma_unique_count_bound(s: Seq<(ItemKind, u32)>, kind: ItemKind)
    requires
        forall|a: int, b: int| 0 <= a < b < s.len() ==> (#[trigger] s[a]).0 != (#[trigger] s[b]).0,
    ensures
        0 <= count_of(s, kind) <= u32::MAX,
{
    if exists|i: int| 0 <= i < s.len() && (#[trigger] s[i]).0 == kind {
        let i = choose|i: int| 0 <= i < s.len() && (#[trigger] s[i]).0 == kind;
        lemma_unique_count_is_entry(s, i, kind);
    } else {
        lemma_count_of_absent(s, kind);
    }
}

} // verus!
