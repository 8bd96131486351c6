//! The reservation ledger: per-container, per-claimant, per-kind outstanding
//! claims on stackable items. Claims are made at planning time, shrunk as the
//! physical transfer happens, and released when a task ends, so that two
//! agents never book the same units of stock.
use vstd::prelude::*;
use crate::items::{EntityId, Inventory, ItemKind};

verus! {

/// One outstanding claim: `owner` holds `qty` units of `kind` in `chest`.
pub struct Claim {
    pub chest: EntityId,
    pub owner: EntityId,
    pub kind: ItemKind,
    pub qty: u32,
}

/// How much the claim `e` contributes to the selection `(chest, owner, kind)`;
/// `owner == None` selects every claimant.
pub open spec fn contribution(
    e: Claim,
    chest: EntityId,
    owner: Option<EntityId>,
    kind: ItemKind,
) -> int {
    if e.chest == chest && e.kind == kind && (owner is None || owner == Some(e.owner)) {
        e.qty as int
    } else {
        0
    }
}

/// Total quantity that the claims of `s` hold for the selection.
pub open spec fn sum_for(
    s: Seq<Claim>,
    chest: EntityId,
    owner: Option<EntityId>,
    kind: ItemKind,
) -> int
    decreases s.len(),
{
    if s.len() == 0 {
        0
    } else {
        sum_for(s.drop_last(), chest, owner, kind) + contribution(s.last(), chest, owner, kind)
    }
}

proof fn lemma_sum_nonneg(s: Seq<Claim>, chest: EntityId, owner: Option<EntityId>, kind: ItemKind)
    ensures
        0 <= sum_for(s, chest, owner, kind),
    decreases s.len(),
{
    if s.len() > 0 {
        lemma_sum_nonneg(s.drop_last(), chest, owner, kind);
    }
}

proof fn lemma_sum_absent(s: Seq<Claim>, chest: EntityId, owner: Option<EntityId>, kind: ItemKind)
    requires
        forall|i: int| 0 <= i < s.len() ==> contribution(#[trigger] s[i], chest, owner, kind) == 0,
    ensures
        sum_for(s, chest, owner, kind) == 0,
    decreases s.len(),
{
    if s.len() > 0 {
        lemma_sum_absent(s.drop_last(), chest, owner, kind);
    }
}

/// Appending a claim adds its contribution, for every selection.
proof fn lemma_sum_push_all(s: Seq<Claim>, e: Claim)
    ensures
        forall|c: EntityId, o: Option<EntityId>, k: ItemKind|
            #[trigger] sum_for(s.push(e), c, o, k) == sum_for(s, c, o, k) + contribution(
                e,
                c,
                o,
                k,
            ),
{
    assert forall|c: EntityId, o: Option<EntityId>, k: ItemKind|
        #[trigger] sum_for(s.push(e), c, o, k) == sum_for(s, c, o, k) + contribution(
            e,
            c,
            o,
            k,
        ) by {
        assert(s.push(e).drop_last() =~= s);
    }
}

/// Replacing the claim at `i` shifts every selection's sum by the difference
/// of the contributions.
proof fn lemma_sum_update_all(s: Seq<Claim>, i: int, e: Claim)
    requires
        0 <= i < s.len(),
    ensures
        forall|c: EntityId, o: Option<EntityId>, k: ItemKind|
            #[trigger] sum_for(s.update(i, e), c, o, k) == sum_for(s, c, o, k) - contribution(
                s[i],
                c,
                o,
                k,
            ) + contribution(e, c, o, k),
{
    assert forall|c: EntityId, o: Option<EntityId>, k: ItemKind|
        #[trigger] sum_for(s.update(i, e), c, o, k) == sum_for(s, c, o, k) - contribution(
            s[i],
            c,
            o,
            k,
        ) + contribution(e, c, o, k) by {
        lemma_sum_update_one(s, i, e, c, o, k);
    }
}

proof fn lemma_sum_update_one(
    s: Seq<Claim>,
    i: int,
    e: Claim,
    chest: EntityId,
    owner: Option<EntityId>,
    kind: ItemKind,
)
    requires
        0 <= i < s.len(),
    ensures
        sum_for(s.update(i, e), chest, owner, kind) == sum_for(s, chest, owner, kind)
            - contribution(s[i], chest, owner, kind) + contribution(e, chest, owner, kind),
    decreases s.len(),
{
    if i == s.len() - 1 {
        assert(s.update(i, e).drop_last() =~= s.drop_last());
    } else {
        assert(s.update(i, e).drop_last() =~= s.drop_last().update(i, e));
        lemma_sum_update_one(s.drop_last(), i, e, chest, owner, kind);
    }
}

/// Removing the claim at `i` subtracts its contribution, for every selection.
proof fn lemma_sum_remove_all(s: Seq<Claim>, i: int)
    requires
        0 <= i < s.len(),
    ensures
        forall|c: EntityId, o: Option<EntityId>, k: ItemKind|
            #[trigger] sum_for(s.remove(i), c, o, k) == sum_for(s, c, o, k) - contribution(
                s[i],
                c,
                o,
                k,
            ),
{
    assert forall|c: EntityId, o: Option<EntityId>, k: ItemKind|
        #[trigger] sum_for(s.remove(i), c, o, k) == sum_for(s, c, o, k) - contribution(
            s[i],
            c,
            o,
            k,
        ) by {
        lemma_sum_remove_one(s, i, c, o, k);
    }
}

proof fn lemma_sum_remove_one(
    s: Seq<Claim>,
    i: int,
    chest: EntityId,
    owner: Option<EntityId>,
    kind: ItemKind,
)
    requires
        0 <= i < s.len(),
    ensures
        sum_for(s.remove(i), chest, owner, kind) == sum_for(s, chest, owner, kind) - contribution(
            s[i],
            chest,
            owner,
            kind,
        ),
    decreases s.len(),
{
    if i == s.len() - 1 {
        assert(s.remove(i) =~= s.drop_last());
    } else {
        assert(s.remove(i).drop_last() =~= s.drop_last().remove(i));
        lemma_sum_remove_one(s.drop_last(), i, chest, owner, kind);
    }
}

/// Splitting a sequence splits its sums.
proof fn lemma_sum_take_skip(
    s: Seq<Claim>,
    i: int,
    chest: EntityId,
    owner: Option<EntityId>,
    kind: ItemKind,
)
    requires
        0 <= i <= s.len(),
    ensures
        sum_for(s, chest, owner, kind) == sum_for(s.take(i), chest, owner, kind) + sum_for(
            s.skip(i),
            chest,
            owner,
            kind,
        ),
    decreases s.len() - i,
{
    if i == s.len() {
        assert(s.take(i) =~= s);
        assert(s.skip(i) =~= Seq::<Claim>::empty());
    } else {
        lemma_sum_take_skip(s, i + 1, chest, owner, kind);
        assert(s.take(i + 1) =~= s.take(i).push(s[i]));
        assert(s.skip(i).drop_last() =~= Seq::<Claim>::empty() ==> s.skip(i).len() == 1);
        assert(s.skip(i) =~= Seq::new((s.len() - i) as nat, |j: int| s[i + j]));
        lemma_sum_push_all(s.take(i), s[i]);
        lemma_skip_step(s, i, chest, owner, kind);
    }
}

/// Peeling the first element off a suffix.
proof fn lemma_skip_step(
    s: Seq<Claim>,
    i: int,
    chest: EntityId,
    owner: Option<EntityId>,
    kind: ItemKind,
)
    requires
        0 <= i < s.len(),
    ensures
        sum_for(s.skip(i), chest, owner, kind) == contribution(s[i], chest, owner, kind) + sum_for(
            s.skip(i + 1),
            chest,
            owner,
            kind,
        ),
    decreases s.len() - i,
{
    if i == s.len() - 1 {
        assert(s.skip(i).drop_last() =~= Seq::<Claim>::empty());
        assert(s.skip(i).last() == s[i]);
        assert(s.skip(i + 1) =~= Seq::<Claim>::empty());
    } else {
        assert(s.skip(i).drop_last() =~= s.drop_last().skip(i));
        assert(s.skip(i + 1).drop_last() =~= s.drop_last().skip(i + 1));
        assert(s.skip(i).last() == s.last());
        assert(s.skip(i + 1).last() == s.last());
        lemma_skip_step(s.drop_last(), i, chest, owner, kind);
    }
}

/// A claimant never holds more on a chest and kind than all claimants together.
proof fn lemma_owner_le_total(s: Seq<Claim>, chest: EntityId, owner: EntityId, kind: ItemKind)
    ensures
        sum_for(s, chest, Some(owner), kind) <= sum_for(s, chest, None, kind),
    decreases s.len(),
{
    if s.len() > 0 {
        lemma_owner_le_total(s.drop_last(), chest, owner, kind);
    }
}

/// The process-wide ledger of outstanding claims.
pub struct Reservations {
    claims: Vec<Claim>,
}

impl Reservations {
    /// At most one claim per (chest, owner, kind) triple, every claim
    /// non-empty, and no chest/kind oversubscribed past `u32`.
    pub closed spec fn wf(&self) -> bool {
        &&& forall|i: int, j: int|
            0 <= i < j < self.claims@.len() ==> !((#[trigger] self.claims@[i]).chest == (
            #[trigger] self.claims@[j]).chest && self.claims@[i].owner == self.claims@[j].owner
                && self.claims@[i].kind == self.claims@[j].kind)
        &&& forall|i: int| 0 <= i < self.claims@.len() ==> (#[trigger] self.claims@[i]).qty > 0
        &&& forall|c: EntityId, k: ItemKind|
            #[trigger] sum_for(self.claims@, c, None, k) <= u32::MAX
    }

    /// The claims as a sequence, for stating laws about the ledger.
    pub closed spec fn claims_seq(&self) -> Seq<Claim> {
        self.claims@
    }

    /// Total reserved on `chest` for `kind`, over all claimants.
    pub open spec fn total_spec(&self, chest: EntityId, kind: ItemKind) -> int {
        sum_for(self.claims_seq(), chest, None, kind)
    }

    /// What `owner` has reserved on `chest` for `kind`.
    pub open spec fn owner_spec(&self, owner: EntityId, chest: EntityId, kind: ItemKind) -> int {
        sum_for(self.claims_seq(), chest, Some(owner), kind)
    }

    pub fn new() -> (r: Reservations)
        ensures
            r.wf(),
            forall|c: EntityId, k: ItemKind| #[trigger] r.total_spec(c, k) == 0,
            forall|o: EntityId, c: EntityId, k: ItemKind| #[trigger] r.owner_spec(o, c, k) == 0,
    {
        Reservations { claims: Vec::new() }
    }

    /// Read-only view of every outstanding claim, for telemetry and display.
    pub fn snapshot(&self) -> (r: &Vec<Claim>)
        ensures
            r@ == self.claims_seq(),
    {
        &self.claims
    }

    /// Total reserved for a given chest and item kind (sum over all owners).
    pub fn total_reserved(&self, chest: EntityId, kind: ItemKind) -> (n: u32)
        requires
            self.wf(),
        ensures
            n == self.total_spec(chest, kind),
    {
        let ghost s = self.claims@;
        let mut acc: u32 = 0;
        let mut i: usize = 0;
        while i < self.claims.len()
            invariant
                i <= s.len(),
                acc == sum_for(s.take(i as int), chest, None, kind),
            decreases s.len() - i,
        {
            proof {
                assert(s.take(i + 1) =~= s.take(i as int).push(s[i as int]));
                lemma_sum_push_all(s.take(i as int), s[i as int]);
                lemma_sum_take_skip(s, i + 1, chest, None, kind);
                lemma_sum_nonneg(s.skip(i + 1), chest, None, kind);
            }
            let e = &self.claims[i];
            if e.chest == chest && e.kind == kind {
                acc = acc + e.qty;
            }
            i += 1;
        }
        proof {
            assert(s.take(s.len() as int) =~= s);
        }
        acc
    }

    /// How much this owner specifically reserved on chest for kind.
    pub fn owner_reserved(&self, owner: EntityId, chest: EntityId, kind: ItemKind) -> (n: u32)
        requires
            self.wf(),
        ensures
            n == self.owner_spec(owner, chest, kind),
    {
        let ghost s = self.claims@;
        let mut i: usize = 0;
        while i < self.claims.len()
            invariant
                i <= s.len(),
                forall|j: int|
                    0 <= j < i ==> contribution(#[trigger] s[j], chest, Some(owner), kind) == 0,
            decreases s.len() - i,
        {
            let e = &self.claims[i];
            if e.chest == chest && e.owner == owner && e.kind == kind {
                proof {
                    lemma_unique_claim_sum(s, i as int, chest, owner, kind);
                }
                return e.qty;
            }
            i += 1;
        }
        proof {
            lemma_sum_absent(s, chest, Some(owner), kind);
        }
        0
    }

    /// Try to reserve `qty` of `kind` for `owner` on `chest`, against the
    /// chest's actual stock minus what is already reserved by everyone.
    /// Records the claim and returns true exactly when enough free stock
    /// exists; otherwise records nothing.
    pub fn try_reserve(
        &mut self,
        owner: EntityId,
        chest: EntityId,
        kind: ItemKind,
        qty: u32,
        chest_inv: &Inventory,
    ) -> (reserved: bool)
        requires
            old(self).wf(),
            chest_inv.wf(),
        ensures
            final(self).wf(),
            reserved == (free_stock(chest_inv.count_spec(kind), old(self).total_spec(chest, kind))
                >= qty),
            reserved ==> final(self).total_spec(chest, kind) == old(self).total_spec(chest, kind)
                + qty,
            reserved ==> final(self).owner_spec(owner, chest, kind) == old(self).owner_spec(
                owner,
                chest,
                kind,
            ) + qty,
            reserved && qty > 0 ==> final(self).total_spec(chest, kind) <= chest_inv.count_spec(
                kind,
            ),
            !reserved ==> final(self).claims_seq() == old(self).claims_seq(),
            forall|c: EntityId, k: ItemKind|
                !(c == chest && k == kind) ==> #[trigger] final(self).total_spec(c, k) == old(
                    self,
                ).total_spec(c, k),
            forall|o: EntityId, c: EntityId, k: ItemKind|
                !(o == owner && c == chest && k == kind) ==> #[trigger] final(self).owner_spec(
                    o,
                    c,
                    k,
                ) == old(self).owner_spec(o, c, k),
    {
        let total = self.total_reserved(chest, kind);
        let available = chest_inv.count(&kind);
        proof {
            lemma_sum_nonneg(self.claims@, chest, None, kind);
            chest_inv.lemma_count_fits(kind);
        }
        let free = if available >= total {
            available - total
        } else {
            0
        };
        if free < qty {
            return false;
        }
        if qty == 0 {
            return true;
        }
        proof {
            lemma_owner_le_total(self.claims@, chest, owner, kind);
        }
        let ghost s0 = self.claims@;
        let mut i: usize = 0;
        while i < self.claims.len()
            invariant
                *self == *old(self),
                i <= s0.len(),
                forall|j: int|
                    0 <= j < i ==> contribution(#[trigger] s0[j], chest, Some(owner), kind) == 0,
            decreases s0.len() - i,
        {
            let matching = {
                let e = &self.claims[i];
                e.chest == chest && e.owner == owner && e.kind == kind
            };
            if matching {
                proof {
                    lemma_unique_claim_sum(s0, i as int, chest, owner, kind);
                }
                let new_qty = self.claims[i].qty + qty;
                let ghost e = Claim { chest, owner, kind, qty: new_qty };
                proof {
                    lemma_sum_update_all(s0, i as int, e);
                }
                self.claims.set(i, Claim { chest, owner, kind, qty: new_qty });
                return true;
            }
            i += 1;
        }
        proof {
            lemma_sum_absent(s0, chest, Some(owner), kind);
            lemma_sum_push_all(s0, Claim { chest, owner, kind, qty });
        }
        self.claims.push(Claim { chest, owner, kind, qty });
        true
    }

    /// Release up to `qty` reserved by `owner` on `chest` for `kind`,
    /// saturating at zero.
    pub fn release(&mut self, owner: EntityId, chest: EntityId, kind: ItemKind, qty: u32)
        requires
            old(self).wf(),
        ensures
            final(self).wf(),
            final(self).owner_spec(owner, chest, kind) == old(self).owner_spec(owner, chest, kind)
                - released(old(self).owner_spec(owner, chest, kind), qty),
            final(self).total_spec(chest, kind) == old(self).total_spec(chest, kind) - released(
                old(self).owner_spec(owner, chest, kind),
                qty,
            ),
            forall|c: EntityId, k: ItemKind|
                !(c == chest && k == kind) ==> #[trigger] final(self).total_spec(c, k) == old(
                    self,
                ).total_spec(c, k),
            forall|o: EntityId, c: EntityId, k: ItemKind|
                !(o == owner && c == chest && k == kind) ==> #[trigger] final(self).owner_spec(
                    o,
                    c,
                    k,
                ) == old(self).owner_spec(o, c, k),
    {
        let ghost s0 = self.claims@;
        let mut i: usize = 0;
        while i < self.claims.len()
            invariant
                *self == *old(self),
                i <= s0.len(),
                forall|j: int|
                    0 <= j < i ==> contribution(#[trigger] s0[j], chest, Some(owner), kind) == 0,
            decreases s0.len() - i,
        {
            let matching = {
                let e = &self.claims[i];
                e.chest == chest && e.owner == owner && e.kind == kind
            };
            if matching {
                proof {
                    lemma_unique_claim_sum(s0, i as int, chest, owner, kind);
                }
                let current = self.claims[i].qty;
                if current > qty {
                    let left = current - qty;
                    let ghost e = Claim { chest, owner, kind, qty: left };
                    proof {
                        lemma_sum_update_all(s0, i as int, e);
                    }
                    self.claims.set(i, Claim { chest, owner, kind, qty: left });
                } else {
                    proof {
                        lemma_sum_remove_all(s0, i as int);
                    }
                    self.claims.remove(i);
                }
                return ;
            }
            i += 1;
        }
        proof {
            lemma_sum_absent(s0, chest, Some(owner), kind);
        }
    }

    /// Release every claim held by `owner`, on any chest. Invoked when a task
    /// completes, fails or is cancelled, so no claim leaks.
    pub fn release_all_for_owner(&mut self, owner: EntityId)
        requires
            old(self).wf(),
        ensures
            final(self).wf(),
            forall|c: EntityId, k: ItemKind| #[trigger] final(self).owner_spec(owner, c, k) == 0,
            forall|c: EntityId, k: ItemKind|
                #[trigger] final(self).total_spec(c, k) == old(self).total_spec(c, k) - old(
                    self,
                ).owner_spec(owner, c, k),
            forall|o: EntityId, c: EntityId, k: ItemKind|
                o != owner ==> #[trigger] final(self).owner_spec(o, c, k) == old(self).owner_spec(
                    o,
                    c,
                    k,
                ),
    {
        let ghost s0 = self.claims@;
        let mut i: usize = 0;
        while i < self.claims.len()
            invariant
                i <= self.claims@.len(),
                forall|j: int| 0 <= j < i ==> (#[trigger] self.claims@[j]).owner != owner,
                forall|a: int, b: int|
                    0 <= a < b < self.claims@.len() ==> !((#[trigger] self.claims@[a]).chest == (
                    #[trigger] self.claims@[b]).chest && self.claims@[a].owner
                        == self.claims@[b].owner && self.claims@[a].kind == self.claims@[b].kind),
                forall|j: int| 0 <= j < self.claims@.len() ==> (#[trigger] self.claims@[j]).qty > 0,
                forall|c: EntityId, k: ItemKind|
                    #[trigger] sum_for(self.claims@, c, None, k) == sum_for(s0, c, None, k)
                        - sum_for(s0, c, Some(owner), k) + sum_for(
                        self.claims@,
                        c,
                        Some(owner),
                        k,
                    ),
                forall|o: EntityId, c: EntityId, k: ItemKind|
                    o != owner ==> #[trigger] sum_for(self.claims@, c, Some(o), k) == sum_for(
                        s0,
                        c,
                        Some(o),
                        k,
                    ),
            decreases self.claims@.len() - i,
        {
            if self.claims[i].owner == owner {
                let ghost s_cur = self.claims@;
                proof {
                    lemma_sum_remove_all(s_cur, i as int);
                }
                self.claims.remove(i);
            } else {
                i += 1;
            }
        }
        proof {
            assert forall|c: EntityId, k: ItemKind|
                #[trigger] sum_for(self.claims@, c, Some(owner), k) == 0 by {
                lemma_sum_absent(self.claims@, c, Some(owner), k);
            }
            assert forall|c: EntityId, k: ItemKind|
                #[trigger] sum_for(self.claims@, c, None, k) <= u32::MAX by {
                lemma_sum_nonneg(s0, c, Some(owner), k);
                lemma_sum_nonneg(self.claims@, c, Some(owner), k);
                lemma_owner_le_total(s0, c, owner, k);
            }
        }
    }
}

/// How much a release of `qty` actually frees when `held` is outstanding.
pub open spec fn released(held: int, qty: u32) -> int {
    if held >= qty {
        qty as int
    } else {
        held
    }
}

/// Stock not yet promised to anyone: the chest's count minus the total
/// reserved, floored at zero.
pub open spec fn free_stock(stock: int, total: int) -> int {
    if stock >= total {
        stock - total
    } else {
        0
    }
}

/// No over-reservation: any quantity the ledger accepts fits inside the
/// stock it was checked against. `try_reserve` grants a quantity only when
/// the free stock covers it, so however many claims are granted against a
/// container's stock, each acceptance leaves the total within that stock,
/// and a refused or zero request changes nothing.
pub proof fn lemma_no_over_reservation(total: int, stock: int, qty: u32)
    requires
        0 <= total,
        free_stock(stock, total) >= qty,
        qty > 0,
    ensures
        total + qty <= stock,
{
}

/// The running total on one chest and kind after a sequence of reservation
/// requests against constant stock, each decided the way `try_reserve`
/// decides it: a request is granted, and adds its quantity, exactly when it
/// fits into the free stock; a refused request changes nothing.
pub open spec fn total_after_requests(requests: Seq<u32>, start_total: int, stock: int) -> int
    decreases requests.len(),
{
    if requests.len() == 0 {
        start_total
    } else {
        let t = total_after_requests(requests.drop_last(), start_total, stock);
        if free_stock(stock, t) >= requests.last() {
            t + requests.last()
        } else {
            t
        }
    }
}

/// No over-reservation over whole call sequences: starting from a total
/// within the stock, any number of `try_reserve` requests in any order, for
/// any mix of claimants, leaves the total between where it started and the
/// stock — so the granted quantities can never sum past the stock. Each
/// `try_reserve` call realizes exactly one step of `total_after_requests`
/// (its ensures ties acceptance to `free_stock` and adds the quantity on
/// success), so this induction covers every such sequence.
pub proof fn lemma_no_over_reservation_sequence(requests: Seq<u32>, start_total: int, stock: int)
    requires
        0 <= start_total <= stock,
    ensures
        start_total <= total_after_requests(requests, start_total, stock) <= stock,
    decreases requests.len(),
{
    if requests.len() > 0 {
        lemma_no_over_reservation_sequence(requests.drop_last(), start_total, stock);
    }
}

/// The claimants that hold something on `chest` for `kind`, in ledger order.
pub open spec fn owners_of(s: Seq<Claim>, chest: EntityId, kind: ItemKind) -> Seq<EntityId>
    decreases s.len(),
{
    if s.len() == 0 {
        Seq::empty()
    } else {
        let rest = owners_of(s.drop_last(), chest, kind);
        if s.last().chest == chest && s.last().kind == kind {
            rest.push(s.last().owner)
        } else {
            rest
        }
    }
}

/// Sum of the per-claimant amounts over a list of claimants.
pub open spec fn sum_owner_amounts(
    s: Seq<Claim>,
    owners: Seq<EntityId>,
    chest: EntityId,
    kind: ItemKind,
) -> int
    decreases owners.len(),
{
    if owners.len() == 0 {
        0
    } else {
        sum_owner_amounts(s, owners.drop_last(), chest, kind) + sum_for(
            s,
            chest,
            Some(owners.last()),
            kind,
        )
    }
}

/// Dropping the last claim does not change the per-claimant sums of claimants
/// it contributes nothing to.
proof fn lemma_soa_drop_last(s: Seq<Claim>, owners: Seq<EntityId>, chest: EntityId, kind: ItemKind)
    requires
        s.len() > 0,
        forall|j: int|
            0 <= j < owners.len() ==> contribution(s.last(), chest, Some(#[trigger] owners[j]), kind)
                == 0,
    ensures
        sum_owner_amounts(s, owners, chest, kind) == sum_owner_amounts(
            s.drop_last(),
            owners,
            chest,
            kind,
        ),
    decreases owners.len(),
{
    if owners.len() > 0 {
        lemma_soa_drop_last(s, owners.drop_last(), chest, kind);
    }
}

/// A claimant listed by `owners_of` holds one of the claims.
proof fn lemma_listed_owner_has_claim(s: Seq<Claim>, chest: EntityId, kind: ItemKind, o: EntityId)
    requires
        owners_of(s, chest, kind).contains(o),
    ensures
        exists|i: int|
            0 <= i < s.len() && (#[trigger] s[i]).chest == chest && s[i].kind == kind && s[i].owner
                == o,
    decreases s.len(),
{
    let os = owners_of(s, chest, kind);
    let rest = owners_of(s.drop_last(), chest, kind);
    if s.last().chest == chest && s.last().kind == kind && s.last().owner == o {
        assert(s[s.len() - 1] == s.last());
    } else {
        assert(rest.contains(o)) by {
            let j = choose|j: int| 0 <= j < os.len() && os[j] == o;
            if s.last().chest == chest && s.last().kind == kind {
                assert(os == rest.push(s.last().owner));
                assert(j < rest.len());
                assert(rest[j] == o);
            } else {
                assert(os == rest);
            }
        }
        lemma_listed_owner_has_claim(s.drop_last(), chest, kind, o);
        let i = choose|i: int|
            0 <= i < s.drop_last().len() && (#[trigger] s.drop_last()[i]).chest == chest
                && s.drop_last()[i].kind == kind && s.drop_last()[i].owner == o;
        assert(s[i] == s.drop_last()[i]);
    }
}

/// Ledger conservation over the raw claim sequence: with unique triples, the
/// total for a chest and kind is the sum of the per-claimant amounts over the
/// distinct claimants listed there, and unlisted claimants hold nothing.
proof fn lemma_conservation_rec(s: Seq<Claim>, chest: EntityId, kind: ItemKind)
    requires
        forall|a: int, b: int|
            0 <= a < b < s.len() ==> !((#[trigger] s[a]).chest == (#[trigger] s[b]).chest
                && s[a].owner == s[b].owner && s[a].kind == s[b].kind),
    ensures
        sum_for(s, chest, None, kind) == sum_owner_amounts(
            s,
            owners_of(s, chest, kind),
            chest,
            kind,
        ),
        forall|a: int, b: int|
            0 <= a < b < owners_of(s, chest, kind).len() ==> owners_of(s, chest, kind)[a]
                != owners_of(s, chest, kind)[b],
        forall|o: EntityId|
            !owners_of(s, chest, kind).contains(o) ==> sum_for(s, chest, Some(o), kind) == 0,
    decreases s.len(),
{
    if s.len() == 0 {
        assert forall|o: EntityId|
            !owners_of(s, chest, kind).contains(o) implies sum_for(s, chest, Some(o), kind)
            == 0 by {
            lemma_sum_absent(s, chest, Some(o), kind);
        }
    } else {
        let t = s.drop_last();
        let e = s.last();
        assert(forall|a: int, b: int|
            0 <= a < b < t.len() ==> !((#[trigger] t[a]).chest == (#[trigger] t[b]).chest
                && t[a].owner == t[b].owner && t[a].kind == t[b].kind));
        lemma_conservation_rec(t, chest, kind);
        let rest = owners_of(t, chest, kind);
        if e.chest == chest && e.kind == kind {
            // The new claimant is not yet listed: its triple is unique.
            assert(!rest.contains(e.owner)) by {
                if rest.contains(e.owner) {
                    lemma_listed_owner_has_claim(t, chest, kind, e.owner);
                    let i = choose|i: int|
                        0 <= i < t.len() && (#[trigger] t[i]).chest == chest && t[i].kind == kind
                            && t[i].owner == e.owner;
                    assert(s[i] == t[i]);
                    assert(s[s.len() - 1] == e);
                }
            }
            assert(sum_for(t, chest, Some(e.owner), kind) == 0);
            let os = rest.push(e.owner);
            assert(owners_of(s, chest, kind) == os);
            assert(sum_owner_amounts(s, os, chest, kind) == sum_owner_amounts(s, rest, chest, kind)
                + sum_for(s, chest, Some(e.owner), kind)) by {
                assert(os.drop_last() =~= rest);
                assert(os.last() == e.owner);
            }
            assert forall|j: int|
                0 <= j < rest.len() implies contribution(e, chest, Some(#[trigger] rest[j]), kind)
                == 0 by {
                assert(rest[j] != e.owner);
            }
            lemma_soa_drop_last(s, rest, chest, kind);
            assert(sum_for(s, chest, Some(e.owner), kind) == sum_for(t, chest, Some(e.owner), kind)
                + e.qty);
            assert forall|a: int, b: int|
                0 <= a < b < os.len() implies os[a] != os[b] by {
                if b < os.len() - 1 {
                    assert(os[a] == rest[a] && os[b] == rest[b]);
                } else {
                    assert(os[b] == e.owner);
                    assert(rest[a] == os[a]);
                    assert(rest.contains(os[a]) == rest.contains(rest[a]));
                    if os[a] == e.owner {
                        assert(rest.contains(e.owner));
                    }
                }
            }
            assert forall|o: EntityId|
                !owners_of(s, chest, kind).contains(o) implies sum_for(s, chest, Some(o), kind)
                == 0 by {
                assert(!rest.contains(o)) by {
                    if rest.contains(o) {
                        let j = choose|j: int| 0 <= j < rest.len() && rest[j] == o;
                        assert(os[j] == o);
                        assert(os.contains(o));
                    }
                }
                assert(o != e.owner) by {
                    if o == e.owner {
                        assert(os[os.len() - 1] == o);
                        assert(os.contains(o));
                    }
                }
                assert(contribution(e, chest, Some(o), kind) == 0);
            }
        } else {
            assert(owners_of(s, chest, kind) == rest);
            assert forall|j: int|
                0 <= j < rest.len() implies contribution(e, chest, Some(#[trigger] rest[j]), kind)
                == 0 by {
            }
            lemma_soa_drop_last(s, rest, chest, kind);
            assert forall|o: EntityId|
                !owners_of(s, chest, kind).contains(o) implies sum_for(s, chest, Some(o), kind)
                == 0 by {
                assert(contribution(e, chest, Some(o), kind) == 0);
            }
        }
    }
}

/// Ledger conservation: for any chest and kind, the total reserved equals the
/// sum of `owner_spec` over the distinct claimants holding a claim there, and
/// every claimant not listed holds nothing.
pub proof fn lemma_ledger_conservation(r: &Reservations, chest: EntityId, kind: ItemKind)
    requires
        r.wf(),
    ensures
        r.total_spec(chest, kind) == sum_owner_amounts(
            r.claims_seq(),
            owners_of(r.claims_seq(), chest, kind),
            chest,
            kind,
        ),
        forall|a: int, b: int|
            0 <= a < b < owners_of(r.claims_seq(), chest, kind).len() ==> owners_of(
                r.claims_seq(),
                chest,
                kind,
            )[a] != owners_of(r.claims_seq(), chest, kind)[b],
        forall|o: EntityId|
            !owners_of(r.claims_seq(), chest, kind).contains(o) ==> r.owner_spec(o, chest, kind)
                == 0,
{
    lemma_conservation_rec(r.claims_seq(), chest, kind);
}

/// With unique triples, a claimant's sum on a chest and kind is exactly the
/// one claim that names it.
proof fn lemma_unique_claim_sum(s: Seq<Claim>, i: int, chest: EntityId, owner: EntityId, kind: ItemKind)
    requires
        0 <= i < s.len(),
        s[i].chest == chest,
        s[i].owner == owner,
        s[i].kind == kind,
        forall|a: int, b: int|
            0 <= a < b < s.len() ==> !((#[trigger] s[a]).chest == (#[trigger] s[b]).chest
                && s[a].owner == s[b].owner && s[a].kind == s[b].kind),
    ensures
        sum_for(s, chest, Some(owner), kind) == s[i].qty as int,
    decreases s.len(),
{
    if i == s.len() - 1 {
        lemma_sum_absent(s.drop_last(), chest, Some(owner), kind);
    } else {
        lemma_unique_claim_sum(s.drop_last(), i, chest, owner, kind);
    }
}

} // verus!
