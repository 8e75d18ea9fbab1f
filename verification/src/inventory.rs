//! The player inventory: a mapping from item identifier to received
//! quantity, kept as an association vector sorted by identifier so that
//! iteration order is deterministic.

use vstd::prelude::*;

verus! {

use crate::ItemID;

/// Quantities cap at this value instead of overflowing.
pub const MAX_QTY: u16 = 0xffff;

/// Entry keys are strictly increasing.
pub open spec fn entries_sorted(s: Seq<(ItemID, u16)>) -> bool {
    forall|i: int, j: int|
        0 <= i < j < s.len() ==> (#[trigger] s[i]).0 < (#[trigger] s[j]).0
}

/// Every recorded quantity is at least one.
pub open spec fn entries_positive(s: Seq<(ItemID, u16)>) -> bool {
    forall|i: int| 0 <= i < s.len() ==> (#[trigger] s[i]).1 >= 1
}

/// Whether an identifier occurs among the entries.
pub open spec fn seq_has(s: Seq<(ItemID, u16)>, id: ItemID) -> bool {
    exists|i: int| 0 <= i < s.len() && (#[trigger] s[i]).0 == id
}

/// The index at which an identifier occurs (meaningful when it does).
pub open spec fn seq_index_of(s: Seq<(ItemID, u16)>, id: ItemID) -> int {
    choose|i: int| 0 <= i < s.len() && (#[trigger] s[i]).0 == id
}

/// The quantity recorded for an identifier, zero when absent.
pub open spec fn seq_qty(s: Seq<(ItemID, u16)>, id: ItemID) -> u16 {
    if seq_has(s, id) {
        s[seq_index_of(s, id)].1
    } else {
        0
    }
}

/// Addition of quantities, capped at `MAX_QTY`.
pub open spec fn sat_cap(n: int) -> u16
    recommends
        n >= 0,
{
    if n > 0xffff {
        0xffff
    } else {
        n as u16
    }
}

/// How many entries of `s` are non-negative and equal to `id`.
pub open spec fn count_of(s: Seq<i32>, id: ItemID) -> nat
    decreases s.len(),
{
    if s.len() == 0 {
        0
    } else {
        count_of(s.drop_last(), id) + (if s.last() >= 0 && s.last() as u32 == id {
            1nat
        } else {
            0nat
        })
    }
}

/// In a sorted entry sequence, the entry at `i` is the one `seq_qty` reads.
proof fn lemma_qty_at(s: Seq<(ItemID, u16)>, i: int)
    requires
        entries_sorted(s),
        0 <= i < s.len(),
    ensures
        seq_has(s, s[i].0),
        seq_index_of(s, s[i].0) == i,
        seq_qty(s, s[i].0) == s[i].1,
{
    let id = s[i].0;
    assert(seq_has(s, id));
    let j = seq_index_of(s, id);
    assert(0 <= j < s.len() && s[j].0 == id);
    if j < i {
        assert(s[j].0 < s[i].0);
    } else if j > i {
        assert(s[i].0 < s[j].0);
    }
}

/// Updating the quantity at one position changes only that key's quantity.
proof fn lemma_qty_update(s: Seq<(ItemID, u16)>, i: int, v: u16)
    requires
        entries_sorted(s),
        0 <= i < s.len(),
    ensures
        entries_sorted(s.update(i, (s[i].0, v))),
        forall|k: ItemID|
            #[trigger] seq_qty(s.update(i, (s[i].0, v)), k) == if k == s[i].0 {
                v
            } else {
                seq_qty(s, k)
            },
{
    let id = s[i].0;
    let s2 = s.update(i, (id, v));
    assert forall|a: int, b: int| 0 <= a < b < s2.len() implies (#[trigger] s2[a]).0 < (
    #[trigger] s2[b]).0 by {
        assert(s2[a].0 == s[a].0 && s2[b].0 == s[b].0);
    }
    assert forall|k: ItemID|
        #[trigger] seq_qty(s2, k) == (if k == id {
            v
        } else {
            seq_qty(s, k)
        }) by {
        if k == id {
            lemma_qty_at(s2, i);
        } else {
            if seq_has(s2, k) {
                let j = seq_index_of(s2, k);
                assert(s[j].0 == k);
                lemma_qty_at(s, j);
                lemma_qty_at(s2, j);
            } else {
                if seq_has(s, k) {
                    let j = seq_index_of(s, k);
                    assert(s2[j].0 == k);
                }
            }
        }
    }
}

/// Inserting a fresh key at its sorted position keeps the sequence sorted
/// and changes only that key's quantity.
proof fn lemma_qty_insert(s: Seq<(ItemID, u16)>, i: int, id: ItemID, v: u16)
    requires
        entries_sorted(s),
        0 <= i <= s.len(),
        forall|k: int| 0 <= k < i ==> (#[trigger] s[k]).0 < id,
        forall|k: int| i <= k < s.len() ==> id < (#[trigger] s[k]).0,
    ensures
        entries_sorted(s.insert(i, (id, v))),
        forall|k: ItemID|
            #[trigger] seq_qty(s.insert(i, (id, v)), k) == if k == id {
                v
            } else {
                seq_qty(s, k)
            },
{
    let s2 = s.insert(i, (id, v));
    assert forall|a: int, b: int| 0 <= a < b < s2.len() implies (#[trigger] s2[a]).0 < (
    #[trigger] s2[b]).0 by {
        if a < i {
            assert(s2[a] == s[a]);
        } else if a == i {
            assert(s2[a] == (id, v));
        } else {
            assert(s2[a] == s[a - 1]);
        }
        if b < i {
            assert(s2[b] == s[b]);
        } else if b == i {
            assert(s2[b] == (id, v));
        } else {
            assert(s2[b] == s[b - 1]);
        }
    }
    assert forall|k: ItemID|
        #[trigger] seq_qty(s2, k) == (if k == id {
            v
        } else {
            seq_qty(s, k)
        }) by {
        if k == id {
            assert(s2[i] == (id, v));
            lemma_qty_at(s2, i);
        } else {
            if seq_has(s2, k) {
                let j = seq_index_of(s2, k);
                assert(0 <= j < s2.len() && s2[j].0 == k);
                if j < i {
                    assert(s2[j] == s[j]);
                    lemma_qty_at(s, j);
                    lemma_qty_at(s2, j);
                } else {
                    assert(j != i);
                    assert(s2[j] == s[j - 1]);
                    lemma_qty_at(s, j - 1);
                    lemma_qty_at(s2, j);
                }
            } else {
                if seq_has(s, k) {
                    let j = seq_index_of(s, k);
                    if j < i {
                        assert(s2[j].0 == k);
                    } else {
                        assert(s2[j + 1].0 == k);
                    }
                }
            }
        }
    }
}

/// Neighbor-wise ascending keys make the whole sequence sorted.
proof fn lemma_adjacent_sorted(s: Seq<(ItemID, u16)>)
    requires
        forall|k: int| 0 <= k < s.len() - 1 ==> (#[trigger] s[k]).0 < s[k + 1].0,
    ensures
        entries_sorted(s),
{
    assert forall|i: int, j: int| 0 <= i < j < s.len() implies (#[trigger] s[i]).0 < (
    #[trigger] s[j]).0 by {
        lemma_key_chain(s, i, j);
    }
}

/// Keys grow along any span of a neighbor-wise ascending sequence.
proof fn lemma_key_chain(s: Seq<(ItemID, u16)>, i: int, j: int)
    requires
        forall|k: int| 0 <= k < s.len() - 1 ==> (#[trigger] s[k]).0 < s[k + 1].0,
        0 <= i < j < s.len(),
    ensures
        s[i].0 < s[j].0,
    decreases j - i,
{
    if j == i + 1 {
        assert(s[i].0 < s[i + 1].0);
    } else {
        lemma_key_chain(s, i, j - 1);
        assert(s[j - 1].0 < s[j].0);
    }
}

/// Dropping the head entry keeps every other key's quantity and zeroes
/// the head key's.
proof fn lemma_qty_tail(s: Seq<(ItemID, u16)>, k: ItemID)
    requires
        entries_sorted(s),
        s.len() > 0,
    ensures
        entries_sorted(s.drop_first()),
        k == s[0].0 ==> seq_qty(s.drop_first(), k) == 0,
        k != s[0].0 ==> seq_qty(s.drop_first(), k) == seq_qty(s, k),
{
    let t = s.drop_first();
    assert forall|a: int, b: int| 0 <= a < b < t.len() implies (#[trigger] t[a]).0 < (
    #[trigger] t[b]).0 by {
        assert(t[a] == s[a + 1] && t[b] == s[b + 1]);
    }
    if k == s[0].0 {
        if seq_has(t, k) {
            let i = seq_index_of(t, k);
            assert(t[i] == s[i + 1]);
            assert(s[0].0 < s[i + 1].0);
        }
    } else {
        if seq_has(s, k) {
            let i = seq_index_of(s, k);
            assert(i != 0);
            assert(t[i - 1] == s[i]);
            lemma_qty_at(t, i - 1);
            lemma_qty_at(s, i);
        } else {
            if seq_has(t, k) {
                let i = seq_index_of(t, k);
                assert(s[i + 1].0 == k);
            }
        }
    }
}

/// Two well-formed inventories recording the same quantity for every
/// identifier hold the very same entries: the representation is canonical.
pub proof fn lemma_inventory_canonical(a: Seq<(ItemID, u16)>, b: Seq<(ItemID, u16)>)
    requires
        entries_sorted(a),
        entries_positive(a),
        entries_sorted(b),
        entries_positive(b),
        forall|k: ItemID| #[trigger] seq_qty(a, k) == seq_qty(b, k),
    ensures
        a == b,
    decreases a.len(),
{
    if a.len() == 0 && b.len() == 0 {
        assert(a =~= b);
    } else if a.len() == 0 {
        lemma_qty_at(b, 0);
        assert(seq_qty(a, b[0].0) == 0);
        assert(false);
    } else if b.len() == 0 {
        lemma_qty_at(a, 0);
        assert(seq_qty(b, a[0].0) == 0);
        assert(false);
    } else {
        lemma_qty_at(a, 0);
        lemma_qty_at(b, 0);
        if a[0].0 < b[0].0 {
            if seq_has(b, a[0].0) {
                let j = seq_index_of(b, a[0].0);
                if j > 0 {
                    assert(b[0].0 < b[j].0);
                }
                assert(false);
            }
            assert(seq_qty(b, a[0].0) == 0);
            assert(false);
        }
        if b[0].0 < a[0].0 {
            if seq_has(a, b[0].0) {
                let j = seq_index_of(a, b[0].0);
                if j > 0 {
                    assert(a[0].0 < a[j].0);
                }
                assert(false);
            }
            assert(seq_qty(a, b[0].0) == 0);
            assert(false);
        }
        assert(a[0].0 == b[0].0);
        assert(a[0].1 == seq_qty(a, a[0].0));
        assert(b[0].1 == seq_qty(b, a[0].0));
        let ta = a.drop_first();
        let tb = b.drop_first();
        assert forall|i: int| 0 <= i < ta.len() implies (#[trigger] ta[i]).1 >= 1 by {
            assert(ta[i] == a[i + 1]);
        }
        assert forall|i: int| 0 <= i < tb.len() implies (#[trigger] tb[i]).1 >= 1 by {
            assert(tb[i] == b[i + 1]);
        }
        assert forall|k: ItemID| #[trigger] seq_qty(ta, k) == seq_qty(tb, k) by {
            lemma_qty_tail(a, k);
            lemma_qty_tail(b, k);
        }
        lemma_qty_tail(a, a[0].0);
        lemma_qty_tail(b, b[0].0);
        lemma_inventory_canonical(ta, tb);
        assert forall|i: int| 0 <= i < a.len() implies a[i] == b[i] by {
            if i > 0 {
                assert(ta[i - 1] == a[i]);
                assert(tb[i - 1] == b[i]);
            }
        }
        assert(a =~= b);
    }
}

/// A player inventory. Quantities only ever grow (capped at `MAX_QTY`);
/// entries are never removed except by a full snapshot replacement.
#[derive(Debug)]
pub struct Inventory {
    pub entries: Vec<(ItemID, u16)>,
}

impl Inventory {
    /// Sorted by identifier, all quantities positive.
    pub open spec fn wf(&self) -> bool {
        entries_sorted(self.entries@) && entries_positive(self.entries@)
    }

    /// The quantity recorded for `id`, zero when absent.
    pub open spec fn qty(&self, id: ItemID) -> u16 {
        seq_qty(self.entries@, id)
    }

    /// Whether `id` has an entry.
    pub open spec fn has(&self, id: ItemID) -> bool {
        seq_has(self.entries@, id)
    }

    /// An empty inventory.
    pub fn new() -> (inv: Inventory)
        ensures
            inv.wf(),
            inv.entries@.len() == 0,
            forall|id: ItemID| !(#[trigger] inv.has(id)),
            forall|id: ItemID| #[trigger] inv.qty(id) == 0,
    {
        Inventory { entries: Vec::new() }
    }

    /// Reads the quantity for one identifier.
    pub fn get(&self, id: ItemID) -> (q: u16)
        requires
            self.wf(),
        ensures
            q == self.qty(id),
    {
        let n = self.entries.len();
        let mut i: usize = 0;
        while i < n
            invariant
                self.wf(),
                n == self.entries@.len(),
                0 <= i <= n,
                forall|k: int| 0 <= k < i ==> (#[trigger] self.entries@[k]).0 < id,
            decreases n - i,
        {
            let (key, q) = self.entries[i];
            if key == id {
                proof {
                    lemma_qty_at(self.entries@, i as int);
                }
                return q;
            }
            if key > id {
                proof {
                    assert forall|k: int| 0 <= k < self.entries@.len() implies (
                    #[trigger] self.entries@[k]).0 != id by {
                        if k >= i {
                            assert(self.entries@[i as int].0 <= self.entries@[k].0);
                        }
                    }
                }
                return 0;
            }
            i += 1;
        }
        proof {
            assert(!seq_has(self.entries@, id));
        }
        0
    }

    /// Adds `n` to the quantity for `id`, capping at `MAX_QTY`.
    pub fn add(&mut self, id: ItemID, n: u16)
        requires
            old(self).wf(),
            n >= 1,
        ensures
            final(self).wf(),
            forall|k: ItemID|
                #[trigger] final(self).qty(k) == if k == id {
                    sat_cap(old(self).qty(k) + n)
                } else {
                    old(self).qty(k)
                },
            forall|k: ItemID| #[trigger] final(self).has(k) <==> (old(self).has(k) || k == id),
    {
        let ghost orig = self.entries@;
        let len = self.entries.len();
        let mut i: usize = 0;
        while i < len && self.entries[i].0 < id
            invariant
                self.wf(),
                self.entries@ == orig,
                len == self.entries@.len(),
                0 <= i <= len,
                forall|k: int| 0 <= k < i ==> (#[trigger] self.entries@[k]).0 < id,
            decreases len - i,
        {
            i += 1;
        }
        if i < len && self.entries[i].0 == id {
            let q = self.entries[i].1;
            let sum: u32 = q as u32 + n as u32;
            let nq: u16 = if sum > 0xffff {
                0xffff
            } else {
                sum as u16
            };
            self.entries.set(i, (id, nq));
            proof {
                lemma_qty_update(orig, i as int, nq);
                lemma_qty_at(orig, i as int);
                assert(nq == sat_cap(seq_qty(orig, id) + n));
                assert forall|k: ItemID| #[trigger] seq_has(self.entries@, k) <==> (seq_has(
                    orig,
                    k,
                ) || k == id) by {
                    if seq_has(self.entries@, k) {
                        let j = seq_index_of(self.entries@, k);
                        assert(orig[j].0 == k);
                    }
                    if seq_has(orig, k) {
                        let j = seq_index_of(orig, k);
                        assert(self.entries@[j].0 == k);
                    }
                }
            }
        } else {
            proof {
                if i < len {
                    assert(id < orig[i as int].0);
                }
                assert forall|k: int| i <= k < orig.len() implies id < (#[trigger] orig[k]).0 by {
                    assert(orig[i as int].0 <= orig[k].0);
                }
                if seq_has(orig, id) {
                    let j = seq_index_of(orig, id);
                    assert(orig[j].0 == id);
                }
                assert(seq_qty(orig, id) == 0);
            }
            self.entries.insert(i, (id, n));
            proof {
                lemma_qty_insert(orig, i as int, id, n);
                assert forall|k: ItemID| #[trigger] seq_has(self.entries@, k) <==> (seq_has(
                    orig,
                    k,
                ) || k == id) by {
                    if seq_has(self.entries@, k) {
                        let j = seq_index_of(self.entries@, k);
                        if j < i {
                            assert(orig[j].0 == k);
                        } else if j > i {
                            assert(orig[j - 1].0 == k);
                        }
                    }
                    if seq_has(orig, k) {
                        let j = seq_index_of(orig, k);
                        if j < i {
                            assert(self.entries@[j].0 == k);
                        } else {
                            assert(self.entries@[j + 1].0 == k);
                        }
                    }
                    if k == id {
                        assert(self.entries@[i as int].0 == id);
                    }
                }
            }
        }
    }

    /// Applies an incremental delta: one increment per non-negative
    /// occurrence in `items`.
    pub fn apply_delta(&mut self, items: &Vec<i32>)
        requires
            old(self).wf(),
        ensures
            final(self).wf(),
            forall|k: ItemID|
                #[trigger] final(self).qty(k) == sat_cap(
                    old(self).qty(k) + count_of(items@, k),
                ),
            forall|k: ItemID|
                #[trigger] final(self).has(k) <==> (old(self).has(k) || count_of(items@, k)
                    > 0),
    {
        let ghost orig: Inventory = *self;
        let n = items.len();
        let mut i: usize = 0;
        proof {
            assert(items@.take(0) =~= Seq::<i32>::empty());
        }
        while i < n
            invariant
                self.wf(),
                n == items@.len(),
                0 <= i <= n,
                orig.wf(),
                forall|k: ItemID|
                    #[trigger] self.qty(k) == sat_cap(
                        orig.qty(k) + count_of(items@.take(i as int), k),
                    ),
                forall|k: ItemID|
                    #[trigger] self.has(k) <==> (orig.has(k) || count_of(
                        items@.take(i as int),
                        k,
                    ) > 0),
            decreases n - i,
        {
            let item = items[i];
            proof {
                assert(items@.take(i + 1).drop_last() =~= items@.take(i as int));
                assert(items@.take(i + 1).last() == items@[i as int]);
            }
            if item >= 0 {
                let id = item as u32;
                self.add(id, 1);
                proof {
                    assert forall|k: ItemID|
                        #[trigger] count_of(items@.take(i + 1), k) == count_of(
                            items@.take(i as int),
                            k,
                        ) + (if k == id {
                            1nat
                        } else {
                            0nat
                        }) by {}
                }
            } else {
                proof {
                    assert forall|k: ItemID|
                        #[trigger] count_of(items@.take(i + 1), k) == count_of(
                            items@.take(i as int),
                            k,
                        ) by {}
                }
            }
            i += 1;
        }
        proof {
            assert(items@.take(n as int) =~= items@);
        }
    }

    /// Builds the inventory described by a full snapshot: the count of each
    /// non-negative identifier in `items`.
    pub fn from_items(items: &Vec<i32>) -> (inv: Inventory)
        ensures
            inv.wf(),
            forall|k: ItemID| #[trigger] inv.qty(k) == sat_cap(count_of(items@, k) as int),
            forall|k: ItemID| #[trigger] inv.has(k) <==> count_of(items@, k) > 0,
    {
        let mut inv = Inventory::new();
        inv.apply_delta(items);
        inv
    }

    /// Checks well-formedness: strictly ascending keys, positive
    /// quantities.
    pub fn check_wf(&self) -> (ok: bool)
        ensures
            ok == self.wf(),
    {
        let n = self.entries.len();
        let mut i: usize = 0;
        while i < n
            invariant
                n == self.entries@.len(),
                0 <= i <= n,
                forall|k: int|
                    0 <= k < i ==> ((k < n - 1 ==> (#[trigger] self.entries@[k]).0
                        < self.entries@[k + 1].0) && self.entries@[k].1 >= 1),
            decreases n - i,
        {
            let (_, qty) = self.entries[i];
            if qty < 1 {
                return false;
            }
            if i + 1 < n && self.entries[i].0 >= self.entries[i + 1].0 {
                return false;
            }
            i += 1;
        }
        proof {
            lemma_adjacent_sorted(self.entries@);
        }
        true
    }

    /// An element-for-element copy.
    pub fn duplicate(&self) -> (r: Inventory)
        ensures
            r.entries@ == self.entries@,
    {
        let n = self.entries.len();
        let mut entries: Vec<(ItemID, u16)> = Vec::new();
        let mut i: usize = 0;
        while i < n
            invariant
                n == self.entries@.len(),
                0 <= i <= n,
                entries@ =~= self.entries@.take(i as int),
            decreases n - i,
        {
            entries.push(self.entries[i]);
            i += 1;
        }
        proof {
            assert(entries@ =~= self.entries@);
        }
        Inventory { entries }
    }
}

} // verus!
