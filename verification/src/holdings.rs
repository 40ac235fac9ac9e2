//! What a mobile holds: everything it wears, and everything inside anything
//! it wears, at any depth.
//!
//! The walk goes out from the worn items through the containers: an item is
//! held if it is worn by the mobile, or lies in a container that is held.
//! Only a container is looked into; a record that merely names another item
//! as its holder, when that item is no container, is not reached. Every
//! record comes out owned by the mobile however deep it lies, because the
//! owner is the key a store replaces a whole inventory by.
use vstd::prelude::*;
use crate::records::{ItemLocation, ItemRecord};
use crate::world::World;

verus! {

/// Whether an item is worn by a mobile.
pub open spec fn worn_by(item: ItemRecord, owner: u32) -> bool {
    item.location matches ItemLocation::Equipped { mobile, .. } && mobile == owner
}

/// Whether item `j` lies directly inside item `i`, and `i` is a container.
pub open spec fn packs(items: Seq<ItemRecord>, i: int, j: int) -> bool {
    &&& items[i].container_gump is Some
    &&& items[j].location matches ItemLocation::Contained { container, .. } && container
        == items[i].serial
}

/// Whether a set of positions in the item list could be what a mobile
/// holds: it has every worn item, and everything packed in anything it has.
pub open spec fn holding_closed(items: Seq<ItemRecord>, owner: u32, held: Set<int>) -> bool {
    &&& forall|i: int| 0 <= i < items.len() && worn_by(#[trigger] items[i], owner) ==> held.contains(i)
    &&& forall|i: int, j: int|
        0 <= i < items.len() && 0 <= j < items.len() && held.contains(i) && #[trigger] packs(
            items,
            i,
            j,
        ) ==> held.contains(j)
}

/// What a mobile holds: the smallest such set.
pub open spec fn is_holding(items: Seq<ItemRecord>, owner: u32, held: Set<int>) -> bool {
    &&& holding_closed(items, owner, held)
    &&& forall|s: Set<int>| #[trigger] holding_closed(items, owner, s) ==> held.subset_of(s)
}

/// The positions of what a mobile holds.
pub open spec fn holding_of(items: Seq<ItemRecord>, owner: u32) -> Set<int> {
    choose|held: Set<int>| is_holding(items, owner, held)
}

/// A held item's record, owned by the mobile holding it.
pub open spec fn as_held(item: ItemRecord, owner: u32) -> ItemRecord {
    ItemRecord { owner: Some(owner), ..item }
}

/// Whether an order of positions walks a holding breadth-first, `from[k]`
/// being the position of the container that `order[k]` was found in (none
/// for a worn item): the worn items first, in the order they lie in the
/// list; then the contents of each container in the order the containers
/// were found, each container's contents in the order they lie in the list.
pub open spec fn breadth_first(items: Seq<ItemRecord>, owner: u32, order: Seq<int>, from: Seq<int>) -> bool {
    &&& from.len() == order.len()
    &&& forall|k: int|
        0 <= k < order.len() ==> if #[trigger] from[k] < 0 {
            worn_by(items[order[k]], owner)
        } else {
            from[k] < k && packs(items, order[from[k]], order[k])
        }
    &&& forall|a: int, b: int| 0 <= a < b < order.len() ==> #[trigger] from[a] <= #[trigger] from[b]
    &&& forall|a: int, b: int|
        0 <= a < b < order.len() && #[trigger] from[a] == #[trigger] from[b] ==> order[a] < order[b]
}

/// Whether `records` is what a mobile holds, each held item once, walked
/// breadth-first (see [`breadth_first`]), owned by the mobile.
pub open spec fn holds_exactly(records: Seq<ItemRecord>, items: Seq<ItemRecord>, owner: u32) -> bool {
    exists|order: Seq<int>, from: Seq<int>|
        {
            &&& order.no_duplicates()
            &&& order.to_set() == holding_of(items, owner)
            &&& forall|k: int| 0 <= k < order.len() ==> 0 <= #[trigger] order[k] < items.len()
            &&& breadth_first(items, owner, order, from)
            &&& records == order.map_values(|i: int| as_held(items[i], owner))
        }
}

/// There is only one holding.
pub proof fn lemma_holding_unique(items: Seq<ItemRecord>, owner: u32, a: Set<int>, b: Set<int>)
    requires
        is_holding(items, owner, a),
        is_holding(items, owner, b),
    ensures
        a == b,
{
    assert(a.subset_of(b));
    assert(b.subset_of(a));
    assert(a =~= b);
}

/// Every worn item is held, and so is everything in a held container.
pub proof fn lemma_held_is_closed(items: Seq<ItemRecord>, owner: u32, held: Set<int>, i: int, j: int)
    requires
        is_holding(items, owner, held),
        0 <= i < items.len(),
        0 <= j < items.len(),
    ensures
        worn_by(items[i], owner) ==> held.contains(i),
        held.contains(i) && packs(items, i, j) ==> held.contains(j),
{
}

proof fn lemma_order_bounded(order: Seq<int>, n: int)
    requires
        order.no_duplicates(),
        0 <= n,
        forall|k: int| 0 <= k < order.len() ==> 0 <= #[trigger] order[k] < n,
    ensures
        order.len() <= n,
{
    assert(order.to_set().subset_of(vstd::set_lib::set_int_range(0, n)));
    vstd::set_lib::lemma_int_range(0, n);
    order.unique_seq_to_set();
    vstd::set_lib::lemma_len_subset(order.to_set(), vstd::set_lib::set_int_range(0, n));
}

impl World {
    /// Everything a mobile is carrying, worn and packed at any depth, as
    /// records owned by it, breadth-first: the worn items, then the contents
    /// of each container found, and of the containers found in those, in
    /// turn.
    pub fn inventory_of(&self, owner: u32) -> (records: Vec<ItemRecord>)
        ensures
            holds_exactly(records@, self.carried@, owner),
    {
        let items = &self.carried;
        let n = items.len();
        let ghost all = items@;
        let mut included: Vec<bool> = Vec::new();
        let mut k: usize = 0;
        while k < n
            invariant
                k <= n,
                included@.len() == k,
                forall|i: int| 0 <= i < k ==> !(#[trigger] included@[i]),
            decreases n - k,
        {
            included.push(false);
            k = k + 1;
        }
        let mut records: Vec<ItemRecord> = Vec::new();
        let mut found: Vec<usize> = Vec::new();
        let ghost mut order: Seq<int> = Seq::empty();
        let ghost mut from: Seq<int> = Seq::empty();
        let mut i: usize = 0;
        while i < n
            invariant
                n == all.len(),
                items@ == all,
                i <= n,
                included@.len() == n,
                order.no_duplicates(),
                forall|k: int| 0 <= k < order.len() ==> 0 <= #[trigger] order[k] < i,
                forall|x: int| 0 <= x < n ==> (#[trigger] included@[x] <==> order.contains(x)),
                records@ == order.map_values(|x: int| as_held(all[x], owner)),
                found@.len() == order.len(),
                forall|k: int| 0 <= k < order.len() ==> #[trigger] found@[k] as int == order[k],
                forall|x: int| 0 <= x < i && worn_by(#[trigger] all[x], owner) ==> included@[x],
                forall|s: Set<int>| #[trigger]
                    holding_closed(all, owner, s) ==> order.to_set().subset_of(s),
                from.len() == order.len(),
                forall|k: int| 0 <= k < order.len() ==> #[trigger] from[k] == -1 && worn_by(all[order[k]], owner),
                forall|a: int, b: int| 0 <= a < b < order.len() ==> #[trigger] order[a] < #[trigger] order[b],
            decreases n - i,
        {
            if let ItemLocation::Equipped { mobile, .. } = items[i].location {
                if mobile == owner {
                    let ghost before = order;
                    included.set(i, true);
                    records.push(ItemRecord { owner: Some(owner), ..items[i].copy() });
                    found.push(i);
                    proof {
                        order = order.push(i as int);
                        from = from.push(-1);
                        assert(records@ =~= order.map_values(|x: int| as_held(all[x], owner)));
                        assert forall|s: Set<int>| #[trigger]
                            holding_closed(all, owner, s) implies order.to_set().subset_of(s) by {
                            assert(before.to_set().subset_of(s));
                            assert(worn_by(all[i as int], owner));
                        }
                        assert forall|x: int| 0 <= x < n implies (#[trigger] included@[x]
                            <==> order.contains(x)) by {
                            if x == i {
                                assert(order[order.len() - 1] == x);
                            } else {
                                if before.contains(x) {
                                    let k = choose|k: int| 0 <= k < before.len() && before[k] == x;
                                    assert(order[k] == x);
                                }
                                if order.contains(x) {
                                    let k = choose|k: int| 0 <= k < order.len() && order[k] == x;
                                    assert(k < before.len());
                                    assert(before[k] == x);
                                }
                            }
                        }
                    }
                }
            }
            i = i + 1;
        }
        proof {
            lemma_order_bounded(order, n as int);
        }
        let mut h: usize = 0;
        while h < found.len()
            invariant
                n == all.len(),
                items@ == all,
                included@.len() == n,
                order.no_duplicates(),
                forall|k: int| 0 <= k < order.len() ==> 0 <= #[trigger] order[k] < n,
                forall|x: int| 0 <= x < n ==> (#[trigger] included@[x] <==> order.contains(x)),
                records@ == order.map_values(|x: int| as_held(all[x], owner)),
                found@.len() == order.len(),
                forall|k: int| 0 <= k < order.len() ==> #[trigger] found@[k] as int == order[k],
                forall|x: int| 0 <= x < n && worn_by(#[trigger] all[x], owner) ==> included@[x],
                forall|s: Set<int>| #[trigger]
                    holding_closed(all, owner, s) ==> order.to_set().subset_of(s),
                h <= order.len(),
                order.len() <= n,
                forall|k: int, y: int|
                    0 <= k < h && 0 <= y < n && #[trigger] packs(all, order[k], y) ==> included@[y],
                from.len() == order.len(),
                forall|k: int|
                    0 <= k < order.len() ==> if #[trigger] from[k] < 0 {
                        worn_by(all[order[k]], owner)
                    } else {
                        from[k] < k && packs(all, order[from[k]], order[k])
                    },
                forall|k: int| 0 <= k < order.len() ==> #[trigger] from[k] < h,
                forall|a: int, b: int| 0 <= a < b < order.len() ==> #[trigger] from[a] <= #[trigger] from[b],
                forall|a: int, b: int|
                    0 <= a < b < order.len() && #[trigger] from[a] == #[trigger] from[b] ==> order[a] < order[b],
            decreases n - h,
        {
            let c = found[h];
            let ghost c_pos = h as int;
            let ghost order_at = order;
            if items[c].container_gump.is_some() {
                let serial = items[c].serial;
                let mut j: usize = 0;
                while j < n
                    invariant
                        n == all.len(),
                        items@ == all,
                        j <= n,
                        c < n,
                        c_pos == h,
                        h < order_at.len(),
                        order_at[c_pos] == c as int,
                        serial == all[c as int].serial,
                        all[c as int].container_gump is Some,
                        order_at.len() <= order.len(),
                        order.take(order_at.len() as int) == order_at,
                        included@.len() == n,
                        order.no_duplicates(),
                        forall|k: int| 0 <= k < order.len() ==> 0 <= #[trigger] order[k] < n,
                        forall|x: int| 0 <= x < n ==> (#[trigger] included@[x] <==> order.contains(x)),
                        records@ == order.map_values(|x: int| as_held(all[x], owner)),
                        found@.len() == order.len(),
                        forall|k: int| 0 <= k < order.len() ==> #[trigger] found@[k] as int == order[k],
                        forall|x: int| 0 <= x < n && worn_by(#[trigger] all[x], owner) ==> included@[x],
                        forall|s: Set<int>| #[trigger]
                            holding_closed(all, owner, s) ==> order.to_set().subset_of(s),
                        forall|k: int, y: int|
                            0 <= k < h && 0 <= y < n && #[trigger] packs(all, order[k], y) ==> included@[y],
                        forall|y: int| 0 <= y < j && #[trigger] packs(all, c as int, y) ==> included@[y],
                        from.len() == order.len(),
                        forall|k: int|
                            0 <= k < order.len() ==> if #[trigger] from[k] < 0 {
                                worn_by(all[order[k]], owner)
                            } else {
                                from[k] < k && packs(all, order[from[k]], order[k])
                            },
                        forall|k: int| 0 <= k < order.len() ==> #[trigger] from[k] <= h,
                        forall|k: int| 0 <= k < order.len() && #[trigger] from[k] == h ==> order[k] < j,
                        forall|a: int, b: int| 0 <= a < b < order.len() ==> #[trigger] from[a] <= #[trigger] from[b],
                        forall|a: int, b: int|
                            0 <= a < b < order.len() && #[trigger] from[a] == #[trigger] from[b] ==> order[a] < order[b],
                    decreases n - j,
                {
                    let inside = match items[j].location {
                        ItemLocation::Contained { container, .. } => container == serial,
                        _ => false,
                    };
                    if inside && !included[j] {
                        let ghost before = order;
                        let ghost from_before = from;
                        included.set(j, true);
                        records.push(ItemRecord { owner: Some(owner), ..items[j].copy() });
                        found.push(j);
                        proof {
                            order = order.push(j as int);
                            from = from.push(c_pos);
                            assert(records@ =~= order.map_values(|x: int| as_held(all[x], owner)));
                            assert(packs(all, c as int, j as int));
                            assert(order[c_pos] == c as int);
                            assert forall|s: Set<int>| #[trigger]
                                holding_closed(all, owner, s) implies order.to_set().subset_of(s) by {
                                assert(before.to_set().subset_of(s));
                                assert(before[c_pos] == c as int);
                                assert(before.to_set().contains(c as int));
                                assert(s.contains(c as int));
                            }
                            assert(!before.contains(j as int));
                            assert(order.take(order_at.len() as int) =~= order_at) by {
                                assert(before.take(order_at.len() as int) == order_at);
                            }
                            assert forall|x: int| 0 <= x < n implies (#[trigger] included@[x]
                                <==> order.contains(x)) by {
                                if x == j {
                                    assert(order[order.len() - 1] == x);
                                } else {
                                    if before.contains(x) {
                                        let k = choose|k: int| 0 <= k < before.len() && before[k] == x;
                                        assert(order[k] == x);
                                    }
                                    if order.contains(x) {
                                        let k = choose|k: int| 0 <= k < order.len() && order[k] == x;
                                        assert(k < before.len());
                                        assert(before[k] == x);
                                    }
                                }
                            }
                            assert forall|k: int| 0 <= k < order.len() implies if #[trigger] from[k] < 0 {
                                worn_by(all[order[k]], owner)
                            } else {
                                from[k] < k && packs(all, order[from[k]], order[k])
                            } by {
                                if k < before.len() {
                                    assert(from[k] == from_before[k]);
                                    assert(order[k] == before[k]);
                                    if from[k] >= 0 {
                                        assert(order[from[k]] == before[from[k]]);
                                    }
                                }
                            }
                            assert forall|k: int, y: int|
                                0 <= k < h && 0 <= y < n && #[trigger] packs(all, order[k], y) implies included@[y] by {
                                assert(order[k] == before[k]);
                            }
                        }
                    }
                    proof {
                        assert forall|y: int| 0 <= y < j + 1 && #[trigger] packs(all, c as int, y) implies included@[y] by {
                            if y == j {
                                assert(inside);
                            }
                        }
                    }
                    j = j + 1;
                }
                proof {
                    assert forall|k: int, y: int|
                        0 <= k < h + 1 && 0 <= y < n && #[trigger] packs(all, order[k], y) implies included@[y] by {
                        if k == h {
                            assert(order[k] == order_at[k]);
                        }
                    }
                }
            } else {
                proof {
                    assert forall|k: int, y: int|
                        0 <= k < h + 1 && 0 <= y < n && #[trigger] packs(all, order[k], y) implies included@[y] by {
                        if k == h {
                            assert(order[k] == c as int);
                        }
                    }
                }
            }
            proof {
                lemma_order_bounded(order, n as int);
            }
            h = h + 1;
        }
        proof {
            let held = order.to_set();
            assert forall|x: int, y: int|
                0 <= x < all.len() && 0 <= y < all.len() && held.contains(x) && #[trigger] packs(
                    all,
                    x,
                    y,
                ) implies held.contains(y) by {
                let k = choose|k: int| 0 <= k < order.len() && order[k] == x;
                assert(packs(all, order[k], y));
                assert(included@[y]);
            }
            assert forall|x: int| 0 <= x < all.len() && worn_by(#[trigger] all[x], owner) implies held.contains(x) by {
                assert(included@[x]);
            }
            assert(holding_closed(all, owner, held));
            assert(is_holding(all, owner, held));
            lemma_holding_unique(all, owner, held, holding_of(all, owner));
            assert(breadth_first(all, owner, order, from));
            assert(holds_exactly(records@, all, owner));
        }
        records
    }
}

} // verus!
