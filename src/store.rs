use vstd::prelude::*;
use crate::market::{opt_view, Market, MarketView};

verus! {

/// Why a record was not stored.
#[derive(Debug, PartialEq, Eq, Structural)]
pub enum StoreError {
    /// A record with an empty identity never reaches storage.
    EmptyId,
}

pub open spec fn opt_market(o: Option<&Market>) -> Option<MarketView> {
    match o {
        Some(m) => Some(m@),
        None => None,
    }
}

/// When the record was first seen: kept from the stored row, else `now`.
pub open spec fn first_seen(existing: Option<MarketView>, now: i64) -> i64 {
    match existing {
        Some(e) => match e.discovered_at {
            Some(d) => d,
            None => now,
        },
        None => now,
    }
}

/// The row written for `incoming` at time `now`: its fields, the first-seen
/// time of the stored row (or `now`), and `now` as update time, never
/// earlier than the first-seen time.
pub open spec fn stored_row(existing: Option<MarketView>, incoming: MarketView, now: i64) -> MarketView {
    let d = first_seen(existing, now);
    MarketView {
        id: incoming.id,
        title: incoming.title,
        description: incoming.description,
        current_price: incoming.current_price,
        volume: incoming.volume,
        end_date: incoming.end_date,
        discovered_at: Some(d),
        updated_at: Some(if now < d { d } else { now }),
    }
}

fn clone_text(o: &Option<String>) -> (r: Option<String>)
    ensures
        opt_view(r) == opt_view(*o),
{
    match o {
        Some(s) => Some(s.clone()),
        None => None,
    }
}

/// The row to write for `incoming` at time `now`, given the stored row with
/// the same identity if there is one, and whether the record is new.
pub fn plan_upsert(existing: Option<&Market>, incoming: &Market, now: i64) -> (r: (Market, bool))
    ensures
        r.0@ == stored_row(opt_market(existing), incoming@, now),
        r.1 == existing is None,
{
    let d = match existing {
        Some(e) => match e.discovered_at {
            Some(d) => d,
            None => now,
        },
        None => now,
    };
    let row = Market {
        id: incoming.id.clone(),
        title: incoming.title.clone(),
        description: clone_text(&incoming.description),
        current_price: clone_text(&incoming.current_price),
        volume: clone_text(&incoming.volume),
        end_date: clone_text(&incoming.end_date),
        discovered_at: Some(d),
        updated_at: Some(if now < d { d } else { now }),
    };
    (row, existing.is_none())
}

/// How many store outcomes report a new record: `Some(true)` is a new
/// record, `Some(false)` an updated one, `None` a failed store.
pub open spec fn new_records(outcomes: Seq<Option<bool>>) -> nat
    decreases outcomes.len(),
{
    if outcomes.len() == 0 {
        0
    } else {
        new_records(outcomes.drop_last()) + if outcomes.last() == Some(true) { 1nat } else { 0nat }
    }
}

/// Counts the records of one cycle that were stored as new.
pub fn count_new(outcomes: &Vec<Option<bool>>) -> (r: usize)
    ensures
        r == new_records(outcomes@),
{
    let mut count: usize = 0;
    let mut i: usize = 0;
    while i < outcomes.len()
        invariant
            i <= outcomes@.len(),
            count <= i,
            count == new_records(outcomes@.take(i as int)),
        decreases outcomes@.len() - i,
    {
        assert(outcomes@.take(i + 1).drop_last() =~= outcomes@.take(i as int));
        assert(outcomes@.take(i + 1).last() == outcomes@[i as int]);
        if outcomes[i] == Some(true) {
            count = count + 1;
        }
        i = i + 1;
    }
    assert(outcomes@.take(outcomes@.len() as int) =~= outcomes@);
    count
}

pub open spec fn has_id(rows: Seq<MarketView>, id: Seq<char>) -> bool {
    exists|i: int| 0 <= i < rows.len() && (#[trigger] rows[i]).id == id
}

pub open spec fn index_of(rows: Seq<MarketView>, id: Seq<char>) -> int {
    choose|i: int| 0 <= i < rows.len() && (#[trigger] rows[i]).id == id
}

/// The stored row with identity `id`.
pub open spec fn row_for(rows: Seq<MarketView>, id: Seq<char>) -> MarketView {
    rows[index_of(rows, id)]
}

/// Identities are unique and non-empty, and each row was first seen no
/// later than it was last updated.
pub open spec fn well_formed_rows(rows: Seq<MarketView>) -> bool {
    &&& forall|i: int, j: int|
        0 <= i < rows.len() && 0 <= j < rows.len() && i != j ==> (#[trigger] rows[i]).id
            != (#[trigger] rows[j]).id
    &&& forall|i: int|
        0 <= i < rows.len() ==> {
            let r = #[trigger] rows[i];
            &&& r.id.len() > 0
            &&& r.discovered_at is Some
            &&& r.updated_at is Some
            &&& r.discovered_at->0 <= r.updated_at->0
        }
}

/// The rows after storing `m` at time `now`: the row with its identity is
/// replaced, or a row is added at the end.
pub open spec fn after_upsert(rows: Seq<MarketView>, m: MarketView, now: i64) -> Seq<MarketView> {
    if has_id(rows, m.id) {
        let i = index_of(rows, m.id);
        rows.update(i, stored_row(Some(rows[i]), m, now))
    } else {
        rows.push(stored_row(None, m, now))
    }
}

/// In-memory storage of market records, keyed by identity.
pub struct MarketStore {
    rows: Vec<Market>,
}

impl View for MarketStore {
    type V = Seq<MarketView>;

    closed spec fn view(&self) -> Seq<MarketView> {
        self.rows@.map_values(|m: Market| m@)
    }
}

impl MarketStore {
    pub open spec fn wf(&self) -> bool {
        well_formed_rows(self@)
    }

    pub fn new() -> (r: MarketStore)
        ensures
            r.wf(),
            r@.len() == 0,
    {
        let r = MarketStore { rows: Vec::new() };
        assert(r@ =~= Seq::<MarketView>::empty());
        r
    }

    /// Number of stored records.
    pub fn len(&self) -> (r: usize)
        ensures
            r == self@.len(),
    {
        self.rows.len()
    }

    fn position(&self, id: &str) -> (r: Option<usize>)
        requires
            self.wf(),
        ensures
            match r {
                Some(i) => i < self@.len() && self@[i as int].id == id@ && index_of(self@, id@)
                    == i,
                None => !has_id(self@, id@),
            },
    {
        let mut i: usize = 0;
        while i < self.rows.len()
            invariant
                i <= self@.len(),
                self.wf(),
                self@.len() == self.rows@.len(),
                forall|k: int| 0 <= k < i ==> (#[trigger] self@[k]).id != id@,
            decreases self@.len() - i,
        {
            if crate::text::str_eq(self.rows[i].id.as_str(), id) {
                assert(self@[i as int].id == id@);
                assert(has_id(self@, id@));
                let ghost k = index_of(self@, id@);
                assert(self@[k].id == id@);
                return Some(i);
            }
            assert(self@[i as int] == self.rows@[i as int]@);
            i = i + 1;
        }
        None
    }

    /// The record stored under `id`.
    pub fn get_market_by_id(&self, id: &str) -> (r: Option<&Market>)
        requires
            self.wf(),
        ensures
            r is Some <==> has_id(self@, id@),
            r is Some ==> r->0@ == row_for(self@, id@),
    {
        match self.position(id) {
            Some(i) => Some(&self.rows[i]),
            None => None,
        }
    }

    /// Stores `market` at time `now`: inserts it as first seen now, or
    /// updates the stored row, keeping its first-seen time. Returns whether
    /// the identity was new.
    pub fn upsert_market(&mut self, market: &Market, now: i64) -> (r: Result<bool, StoreError>)
        requires
            old(self).wf(),
        ensures
            final(self).wf(),
            market.id@.len() == 0 ==> r == Err::<bool, StoreError>(StoreError::EmptyId)
                && final(self)@ == old(self)@,
            market.id@.len() > 0 ==> r == Ok::<bool, StoreError>(!has_id(old(self)@, market.id@))
                && final(self)@ == after_upsert(old(self)@, market@, now),
    {
        if market.id.as_str().unicode_len() == 0 {
            return Err(StoreError::EmptyId);
        }
        proof {
            lemma_after_upsert(self@, market@, now);
        }
        match self.position(market.id.as_str()) {
            Some(i) => {
                let (row, _) = plan_upsert(Some(&self.rows[i]), market, now);
                self.rows.set(i, row);
                assert(self@ =~= after_upsert(old(self)@, market@, now));
                Ok(false)
            },
            None => {
                let (row, _) = plan_upsert(None, market, now);
                self.rows.push(row);
                assert(self@ =~= after_upsert(old(self)@, market@, now));
                Ok(true)
            },
        }
    }
}

proof fn lemma_after_upsert(rows: Seq<MarketView>, m: MarketView, now: i64)
    requires
        well_formed_rows(rows),
        m.id.len() > 0,
    ensures
        well_formed_rows(after_upsert(rows, m, now)),
        has_id(after_upsert(rows, m, now), m.id),
        row_for(after_upsert(rows, m, now), m.id) == stored_row(
            if has_id(rows, m.id) { Some(row_for(rows, m.id)) } else { None },
            m,
            now,
        ),
        forall|id: Seq<char>| #[trigger] has_id(rows, id) ==> has_id(after_upsert(rows, m, now), id),
        forall|id: Seq<char>|
            #[trigger] has_id(after_upsert(rows, m, now), id) ==> has_id(rows, id) || id == m.id,
        after_upsert(rows, m, now).len() == rows.len() + if has_id(rows, m.id) { 0int } else { 1int },
        forall|id: Seq<char>|
            id != m.id && #[trigger] has_id(rows, id) ==> row_for(after_upsert(rows, m, now), id)
                == row_for(rows, id),
{
    let after = after_upsert(rows, m, now);
    if has_id(rows, m.id) {
        let i = index_of(rows, m.id);
        let e = rows[i];
        assert(after[i].id == m.id);
        assert forall|id: Seq<char>| #[trigger] has_id(rows, id) implies has_id(after, id) by {
            let k = index_of(rows, id);
            if k == i {
                assert(after[i].id == id);
            } else {
                assert(after[k] == rows[k]);
            }
        }
        assert forall|id: Seq<char>| id != m.id && #[trigger] has_id(rows, id) implies row_for(
            after,
            id,
        ) == row_for(rows, id) by {
            let k = index_of(rows, id);
            assert(k != i);
            assert(after[k] == rows[k]);
            let k2 = index_of(after, id);
            assert(after[k2].id == id);
            if k2 != k {
                if k2 == i {
                    assert(after[k2].id == m.id);
                } else {
                    assert(after[k2] == rows[k2]);
                }
            }
        }
        let k2 = index_of(after, m.id);
        if k2 != i {
            assert(after[k2] == rows[k2]);
        }
        assert forall|id: Seq<char>| #[trigger] has_id(after, id) implies has_id(rows, id) || id
            == m.id by {
            let k = index_of(after, id);
            if k != i {
                assert(after[k] == rows[k]);
            }
        }
    } else {
        let n = rows.len() as int;
        assert(after[n].id == m.id);
        assert forall|id: Seq<char>| #[trigger] has_id(rows, id) implies has_id(after, id) by {
            let k = index_of(rows, id);
            assert(after[k] == rows[k]);
        }
        assert forall|id: Seq<char>| id != m.id && #[trigger] has_id(rows, id) implies row_for(
            after,
            id,
        ) == row_for(rows, id) by {
            let k = index_of(rows, id);
            assert(after[k] == rows[k]);
            let k2 = index_of(after, id);
            assert(after[k2].id == id);
            if k2 != k {
                assert(k2 != n);
                assert(after[k2] == rows[k2]);
            }
        }
        let k2 = index_of(after, m.id);
        if k2 != n {
            assert(after[k2] == rows[k2]);
            assert(has_id(rows, m.id));
        }
        assert forall|id: Seq<char>| #[trigger] has_id(after, id) implies has_id(rows, id) || id
            == m.id by {
            let k = index_of(after, id);
            if k != n {
                assert(after[k] == rows[k]);
            }
        }
    }
}

/// Storing two records with the same identity, one after the other, leaves
/// one row for it and adds at most one row in all; the row keeps the
/// first-seen time of the first store and takes its fields and update time
/// from the second: the update time is the second store's time unless that
/// time reads earlier than the first-seen time.
pub proof fn upsert_same_id_twice(rows: Seq<MarketView>, m1: MarketView, t1: i64, m2: MarketView, t2: i64)
    requires
        well_formed_rows(rows),
        m1.id.len() > 0,
        m2.id == m1.id,
    ensures
        well_formed_rows(after_upsert(after_upsert(rows, m1, t1), m2, t2)),
        has_id(after_upsert(after_upsert(rows, m1, t1), m2, t2), m1.id),
        after_upsert(after_upsert(rows, m1, t1), m2, t2).len() == after_upsert(rows, m1, t1).len(),
        row_for(after_upsert(after_upsert(rows, m1, t1), m2, t2), m1.id).discovered_at
            == row_for(after_upsert(rows, m1, t1), m1.id).discovered_at,
        row_for(after_upsert(after_upsert(rows, m1, t1), m2, t2), m1.id)
            == stored_row(Some(row_for(after_upsert(rows, m1, t1), m1.id)), m2, t2),
        row_for(after_upsert(after_upsert(rows, m1, t1), m2, t2), m1.id).title == m2.title,
        row_for(after_upsert(rows, m1, t1), m1.id).updated_at->0 <= t2 ==> row_for(
            after_upsert(after_upsert(rows, m1, t1), m2, t2),
            m1.id,
        ).updated_at == Some(t2),
{
    let s1 = after_upsert(rows, m1, t1);
    lemma_after_upsert(rows, m1, t1);
    lemma_after_upsert(s1, m2, t2);
    let i = index_of(s1, m1.id);
    assert(0 <= i < s1.len() && s1[i].id == m1.id);
}

/// The rows after storing each record of `ms` in turn, each at its time.
pub open spec fn upsert_all(rows: Seq<MarketView>, ms: Seq<(MarketView, i64)>) -> Seq<MarketView>
    decreases ms.len(),
{
    if ms.len() == 0 {
        rows
    } else {
        after_upsert(upsert_all(rows, ms.drop_last()), ms.last().0, ms.last().1)
    }
}

proof fn lemma_upsert_all(rows: Seq<MarketView>, ms: Seq<(MarketView, i64)>, id: Seq<char>)
    requires
        well_formed_rows(rows),
        forall|i: int| 0 <= i < ms.len() ==> (#[trigger] ms[i]).0.id.len() > 0,
    ensures
        well_formed_rows(upsert_all(rows, ms)),
        has_id(upsert_all(rows, ms), id) <==> (has_id(rows, id) || exists|j: int|
            0 <= j < ms.len() && (#[trigger] ms[j]).0.id == id),
    decreases ms.len(),
{
    if ms.len() > 0 {
        let prefix = ms.drop_last();
        assert forall|i: int| 0 <= i < prefix.len() implies (#[trigger] prefix[i]).0.id.len() > 0 by {
            assert(prefix[i] == ms[i]);
        }
        lemma_upsert_all(rows, prefix, id);
        let prev = upsert_all(rows, prefix);
        let last = ms.last();
        assert(last == ms[ms.len() - 1]);
        lemma_after_upsert(prev, last.0, last.1);
        if has_id(upsert_all(rows, ms), id) && !has_id(rows, id) {
            if id == last.0.id {
                assert(ms[ms.len() - 1].0.id == id);
            } else {
                let j = choose|j: int| 0 <= j < prefix.len() && (#[trigger] prefix[j]).0.id == id;
                assert(ms[j] == prefix[j]);
            }
        }
        if exists|j: int| 0 <= j < ms.len() && (#[trigger] ms[j]).0.id == id {
            let j = choose|j: int| 0 <= j < ms.len() && (#[trigger] ms[j]).0.id == id;
            if j < ms.len() - 1 {
                assert(prefix[j] == ms[j]);
            }
        }
    }
}

/// Over any sequence of stores, a store reports its record as new exactly
/// when its identity was neither stored before the sequence nor in an
/// earlier store of the sequence: once per identity, on its first store.
pub proof fn first_seen_exactly_once(rows: Seq<MarketView>, ms: Seq<(MarketView, i64)>)
    requires
        well_formed_rows(rows),
        forall|i: int| 0 <= i < ms.len() ==> (#[trigger] ms[i]).0.id.len() > 0,
    ensures
        forall|k: int|
            0 <= k < ms.len() ==> (!has_id(#[trigger] upsert_all(rows, ms.take(k)), ms[k].0.id)
                <==> (!has_id(rows, ms[k].0.id) && forall|j: int|
                0 <= j < k ==> ms[j].0.id != ms[k].0.id)),
{
    assert forall|k: int| 0 <= k < ms.len() implies (!has_id(
        #[trigger] upsert_all(rows, ms.take(k)),
        ms[k].0.id,
    ) <==> (!has_id(rows, ms[k].0.id) && forall|j: int| 0 <= j < k ==> ms[j].0.id != ms[k].0.id)) by {
        let pre = ms.take(k);
        assert forall|i: int| 0 <= i < pre.len() implies (#[trigger] pre[i]).0.id.len() > 0 by {
            assert(pre[i] == ms[i]);
        }
        lemma_upsert_all(rows, pre, ms[k].0.id);
        if exists|j: int| 0 <= j < pre.len() && (#[trigger] pre[j]).0.id == ms[k].0.id {
            let j = choose|j: int| 0 <= j < pre.len() && (#[trigger] pre[j]).0.id == ms[k].0.id;
            assert(pre[j] == ms[j]);
        }
        if exists|j: int| 0 <= j < k && ms[j].0.id == ms[k].0.id {
            let j = choose|j: int| 0 <= j < k && ms[j].0.id == ms[k].0.id;
            assert(pre[j] == ms[j]);
        }
    }
}

} // verus!
