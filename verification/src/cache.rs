//! The client's cache of query results: which query (with a hash of its
//! arguments) each request answers, which model and rows each query returned,
//! and the rows of each model by id.
use vstd::prelude::*;

verus! {

/// The key of a cached row: its model and its id.
pub open spec fn entry_key<M>(e: (u64, i32, M)) -> (u64, i32) {
    (e.0, e.1)
}

/// The order of row keys: by model, then by id.
pub open spec fn key_lt(a: (u64, i32), b: (u64, i32)) -> bool {
    a.0 < b.0 || (a.0 == b.0 && a.1 < b.1)
}

/// The rows are in strictly increasing key order (so no key occurs twice).
pub open spec fn sorted_entries<M>(s: Seq<(u64, i32, M)>) -> bool {
    forall|i: int, j: int|
        0 <= i < j < s.len() ==> key_lt(entry_key(#[trigger] s[i]), entry_key(#[trigger] s[j]))
}

/// The number of rows whose key comes before `k`, counted from the front.
pub open spec fn position<M>(s: Seq<(u64, i32, M)>, k: (u64, i32)) -> nat
    decreases s.len(),
{
    if s.len() == 0 {
        0
    } else if key_lt(entry_key(s[0]), k) {
        1 + position(s.drop_first(), k)
    } else {
        0
    }
}

/// Stores row `id` of model `mid`: it replaces the row with that key, or is
/// inserted in key order.
pub open spec fn upsert<M>(s: Seq<(u64, i32, M)>, mid: u64, id: i32, m: M) -> Seq<(u64, i32, M)> {
    let p = position(s, (mid, id)) as int;
    if p < s.len() && entry_key(s[p]) == (mid, id) {
        s.update(p, (mid, id, m))
    } else {
        s.insert(p, (mid, id, m))
    }
}

/// Stores the rows of model `mid` one after another, so that of two rows
/// with the same id the later one stays.
pub open spec fn upsert_all<M>(s: Seq<(u64, i32, M)>, mid: u64, ms: Seq<(i32, M)>) -> Seq<
    (u64, i32, M),
>
    decreases ms.len(),
{
    if ms.len() == 0 {
        s
    } else {
        upsert(upsert_all(s, mid, ms.drop_last()), mid, ms.last().0, ms.last().1)
    }
}

/// The rows of model `mid` whose id is in `ids`, in key order.
pub open spec fn selection<M>(s: Seq<(u64, i32, M)>, mid: u64, ids: Set<i32>) -> Seq<(u64, i32, M)>
    decreases s.len(),
{
    if s.len() == 0 {
        Seq::empty()
    } else {
        let e = s.last();
        let rest = selection(s.drop_last(), mid, ids);
        if e.0 == mid && ids.contains(e.1) {
            rest.push(e)
        } else {
            rest
        }
    }
}

/// The ids a list holds.
pub open spec fn id_set(v: Seq<i32>) -> Set<i32> {
    Set::new(|x: i32| v.contains(x))
}

/// The ids of a list of rows.
pub open spec fn row_ids<M>(ms: Seq<(i32, M)>) -> Set<i32> {
    Set::new(|x: i32| exists|j: int| 0 <= j < ms.len() && (#[trigger] ms[j]).0 == x)
}

/// The queries of a list of records, the later record of a key winning.
pub open spec fn queries_map(v: Seq<(u64, u64, u64, Vec<i32>)>) -> Map<(u64, u64), (u64, Set<i32>)>
    decreases v.len(),
{
    if v.len() == 0 {
        Map::empty()
    } else {
        let e = v.last();
        queries_map(v.drop_last()).insert((e.0, e.1), (e.2, id_set(e.3@)))
    }
}

/// The requests of a list of records, the later record of a request winning.
pub open spec fn requests_map(v: Seq<(u64, u64, u64)>) -> Map<u64, (u64, u64)>
    decreases v.len(),
{
    if v.len() == 0 {
        Map::empty()
    } else {
        let e = v.last();
        requests_map(v.drop_last()).insert(e.0, (e.1, e.2))
    }
}

/// A change to the rows of a watched query, as the server reports it: a row
/// (with its model and id) inserted or updated, or the id of a deleted row.
pub enum CacheEvent<M> {
    Insert(u64, i32, M),
    Update(u64, i32, M),
    Delete(i32),
}

/// The inserted and updated rows of a list of events, in order.
pub open spec fn upserts<M>(events: Seq<CacheEvent<M>>) -> Seq<(u64, i32, M)>
    decreases events.len(),
{
    if events.len() == 0 {
        Seq::empty()
    } else {
        let rest = upserts(events.drop_last());
        match events.last() {
            CacheEvent::Insert(mid, id, m) => rest.push((mid, id, m)),
            CacheEvent::Update(mid, id, m) => rest.push((mid, id, m)),
            CacheEvent::Delete(_) => rest,
        }
    }
}

/// The deleted ids of a list of events, in order.
pub open spec fn deletes<M>(events: Seq<CacheEvent<M>>) -> Seq<i32>
    decreases events.len(),
{
    if events.len() == 0 {
        Seq::empty()
    } else {
        let rest = deletes(events.drop_last());
        match events.last() {
            CacheEvent::Delete(id) => rest.push(id),
            _ => rest,
        }
    }
}

/// The `(id, row)` pairs of a list of rows.
pub open spec fn id_rows<M>(ups: Seq<(u64, i32, M)>) -> Seq<(i32, M)> {
    ups.map_values(|u: (u64, i32, M)| (u.1, u.2))
}

/// Some insert or update event of the list carries id `x`.
pub open spec fn upserted<M>(events: Seq<CacheEvent<M>>, x: i32) -> bool {
    exists|i: int|
        0 <= i < events.len() && match #[trigger] events[i] {
            CacheEvent::Insert(_, id, _) => id == x,
            CacheEvent::Update(_, id, _) => id == x,
            CacheEvent::Delete(_) => false,
        }
}

/// The row of the last insert or update event of the list that carries id
/// `x`.
pub open spec fn last_upsert<M>(events: Seq<CacheEvent<M>>, x: i32) -> M
    decreases events.len(),
{
    if events.len() == 0 {
        arbitrary()
    } else {
        match events.last() {
            CacheEvent::Insert(_, id, m) => if id == x {
                m
            } else {
                last_upsert(events.drop_last(), x)
            },
            CacheEvent::Update(_, id, m) => if id == x {
                m
            } else {
                last_upsert(events.drop_last(), x)
            },
            CacheEvent::Delete(_) => last_upsert(events.drop_last(), x),
        }
    }
}

/// The rows handed on from a list of events are its insert and update
/// events in order: an id is among them exactly when some such event carries
/// it, and the last row given for it is the row of the last such event.
pub proof fn lemma_event_rows<M>(events: Seq<CacheEvent<M>>, x: i32)
    ensures
        row_ids(id_rows(upserts(events))).contains(x) == upserted(events, x),
        upserted(events, x) ==> last_row(id_rows(upserts(events)), x) == last_upsert(events, x),
    decreases events.len(),
{
    if events.len() > 0 {
        let d = events.drop_last();
        lemma_event_rows(d, x);
        let ups = upserts(events);
        let dups = upserts(d);
        assert forall|i: int| 0 <= i < d.len() implies #[trigger] d[i] == events[i] by {}
        let e = events.last();
        assert(events[events.len() - 1] == e);
        match e {
            CacheEvent::Delete(_) => {
                assert(ups == dups);
                if upserted(events, x) {
                    let i = choose|i: int|
                        0 <= i < events.len() && match #[trigger] events[i] {
                            CacheEvent::Insert(_, id, _) => id == x,
                            CacheEvent::Update(_, id, _) => id == x,
                            CacheEvent::Delete(_) => false,
                        };
                    assert(i < d.len());
                    assert(d[i] == events[i]);
                }
                if upserted(d, x) {
                    let i = choose|i: int|
                        0 <= i < d.len() && match #[trigger] d[i] {
                            CacheEvent::Insert(_, id, _) => id == x,
                            CacheEvent::Update(_, id, _) => id == x,
                            CacheEvent::Delete(_) => false,
                        };
                    assert(events[i] == d[i]);
                }
            },
            _ => {
                let (mid, id, m) = match e {
                    CacheEvent::Insert(a, b, c) => (a, b, c),
                    CacheEvent::Update(a, b, c) => (a, b, c),
                    CacheEvent::Delete(_) => (0u64, 0i32, arbitrary()),
                };
                assert(ups == dups.push((mid, id, m)));
                let rows = id_rows(ups);
                let drows = id_rows(dups);
                assert(rows =~= drows.push((id, m)));
                assert(rows.drop_last() =~= drows);
                assert forall|y: i32| #[trigger] row_ids(rows).contains(y) == (row_ids(drows).contains(y)
                    || y == id) by {
                    if row_ids(rows).contains(y) {
                        let j = choose|j: int| 0 <= j < rows.len() && (#[trigger] rows[j]).0 == y;
                        if j < drows.len() {
                            assert(drows[j] == rows[j]);
                        }
                    }
                    if row_ids(drows).contains(y) {
                        let j = choose|j: int| 0 <= j < drows.len() && (#[trigger] drows[j]).0 == y;
                        assert(rows[j] == drows[j]);
                    }
                    if y == id {
                        assert(rows[rows.len() - 1].0 == y);
                    }
                }
                assert(upserted(events, x) == (upserted(d, x) || id == x)) by {
                    if upserted(events, x) {
                        let i = choose|i: int|
                            0 <= i < events.len() && match #[trigger] events[i] {
                                CacheEvent::Insert(_, id, _) => id == x,
                                CacheEvent::Update(_, id, _) => id == x,
                                CacheEvent::Delete(_) => false,
                            };
                        if i < d.len() {
                            assert(d[i] == events[i]);
                        }
                    }
                    if upserted(d, x) {
                        let i = choose|i: int|
                            0 <= i < d.len() && match #[trigger] d[i] {
                                CacheEvent::Insert(_, id, _) => id == x,
                                CacheEvent::Update(_, id, _) => id == x,
                                CacheEvent::Delete(_) => false,
                            };
                        assert(events[i] == d[i]);
                    }
                }
            },
        }
    }
}

/// In a batch of events, the row cached for an id that some insert or
/// update event carries and no delete event names is the row of the last
/// such event, stored under the model of the first insert or update.
pub proof fn lemma_batch_last_event_wins<M>(s: Seq<(u64, i32, M)>, events: Seq<CacheEvent<M>>, x: i32)
    requires
        sorted_entries(s),
        upserts(events).len() > 0,
        upserted(events, x),
        !deletes(events).contains(x),
    ensures
        upsert_all(s, upserts(events)[0].0, id_rows(upserts(events))).filter(
            kept_row(upserts(events)[0].0, deletes(events)),
        ).contains((upserts(events)[0].0, x, last_upsert(events, x))),
{
    let mid = upserts(events)[0].0;
    let rows = id_rows(upserts(events));
    lemma_event_rows(events, x);
    lemma_upsert_all_content(s, mid, rows);
    let r = upsert_all(s, mid, rows);
    let e = (mid, x, last_upsert(events, x));
    assert(r.contains(e));
    let i = choose|i: int| 0 <= i < r.len() && r[i] == e;
    r.lemma_filter_contains(kept_row(mid, deletes(events)), i);
}

/// The cache of query results.
#[derive(Debug)]
#[verifier::reject_recursive_types(M)]
pub struct QueryCache<M> {
    entries: Vec<(u64, i32, M)>,
    tables: Vec<u64>,
    requests: Vec<(u64, u64, u64)>,
    queries: Vec<(u64, u64, u64, Vec<i32>)>,
}

/// `position` is the first index whose key does not come before `k`.
pub proof fn lemma_position<M>(s: Seq<(u64, i32, M)>, k: (u64, i32))
    ensures
        position(s, k) <= s.len(),
        forall|j: int| 0 <= j < position(s, k) ==> key_lt(entry_key(#[trigger] s[j]), k),
        position(s, k) < s.len() ==> !key_lt(entry_key(s[position(s, k) as int]), k),
    decreases s.len(),
{
    if s.len() > 0 && key_lt(entry_key(s[0]), k) {
        lemma_position(s.drop_first(), k);
        assert forall|j: int| 0 <= j < position(s, k) implies key_lt(entry_key(#[trigger] s[j]), k) by {
            if j > 0 {
                assert(s[j] == s.drop_first()[j - 1]);
            }
        }
        if position(s, k) < s.len() {
            assert(s[position(s, k) as int] == s.drop_first()[position(s.drop_first(), k) as int]);
        }
    }
}

/// An index that has only keys before `k` in front of it, and no such key at
/// it, is `position`.
pub proof fn lemma_position_unique<M>(s: Seq<(u64, i32, M)>, k: (u64, i32), i: int)
    requires
        0 <= i <= s.len(),
        forall|j: int| 0 <= j < i ==> key_lt(entry_key(#[trigger] s[j]), k),
        i == s.len() || !key_lt(entry_key(s[i]), k),
    ensures
        i == position(s, k),
    decreases i,
{
    if i > 0 {
        assert(key_lt(entry_key(s[0]), k));
        assert forall|j: int| 0 <= j < i - 1 implies key_lt(
            entry_key(#[trigger] s.drop_first()[j]),
            k,
        ) by {
            assert(s.drop_first()[j] == s[j + 1]);
        }
        if i < s.len() {
            assert(s.drop_first()[i - 1] == s[i]);
        }
        lemma_position_unique(s.drop_first(), k, i - 1);
    }
}

/// Storing a row keeps the rows in key order, and the stored row is the one
/// the key now finds.
pub proof fn lemma_upsert_sorted<M>(s: Seq<(u64, i32, M)>, mid: u64, id: i32, m: M)
    requires
        sorted_entries(s),
    ensures
        sorted_entries(upsert(s, mid, id, m)),
        upsert(s, mid, id, m)[position(s, (mid, id)) as int] == (mid, id, m),
        position(s, (mid, id)) < upsert(s, mid, id, m).len(),
{
    let k = (mid, id);
    lemma_position(s, k);
    let p = position(s, k) as int;
    let r = upsert(s, mid, id, m);
    if p < s.len() && entry_key(s[p]) == k {
        assert forall|i: int, j: int| 0 <= i < j < r.len() implies key_lt(
            entry_key(#[trigger] r[i]),
            entry_key(#[trigger] r[j]),
        ) by {
            assert(entry_key(r[i]) == entry_key(s[i]));
            assert(entry_key(r[j]) == entry_key(s[j]));
        }
    } else {
        if p < s.len() {
            assert(key_lt(k, entry_key(s[p])));
        }
        assert forall|i: int, j: int| 0 <= i < j < r.len() implies key_lt(
            entry_key(#[trigger] r[i]),
            entry_key(#[trigger] r[j]),
        ) by {
            if j < p {
                assert(r[i] == s[i] && r[j] == s[j]);
            } else if j == p {
                assert(r[i] == s[i]);
            } else if i < p {
                assert(r[i] == s[i] && r[j] == s[j - 1]);
                assert(key_lt(entry_key(s[i]), k));
                assert(key_lt(k, entry_key(s[p])));
                if j - 1 > p {
                    assert(key_lt(entry_key(s[p]), entry_key(s[j - 1])));
                }
            } else if i == p {
                assert(r[j] == s[j - 1]);
                if j - 1 > p {
                    assert(key_lt(entry_key(s[p]), entry_key(s[j - 1])));
                }
            } else {
                assert(r[i] == s[i - 1] && r[j] == s[j - 1]);
            }
        }
    }
}

/// Storing rows keeps the rows in key order.
pub proof fn lemma_upsert_all_sorted<M>(s: Seq<(u64, i32, M)>, mid: u64, ms: Seq<(i32, M)>)
    requires
        sorted_entries(s),
    ensures
        sorted_entries(upsert_all(s, mid, ms)),
    decreases ms.len(),
{
    if ms.len() > 0 {
        lemma_upsert_all_sorted(s, mid, ms.drop_last());
        lemma_upsert_sorted(upsert_all(s, mid, ms.drop_last()), mid, ms.last().0, ms.last().1);
    }
}

/// The rows a query returns come in strictly increasing id order.
pub proof fn lemma_selection_ascending<M>(s: Seq<(u64, i32, M)>, mid: u64, ids: Set<i32>)
    requires
        sorted_entries(s),
    ensures
        forall|i: int, j: int|
            0 <= i < j < selection(s, mid, ids).len() ==> (#[trigger] selection(s, mid, ids)[i]).1
                < (#[trigger] selection(s, mid, ids)[j]).1,
        forall|i: int|
            0 <= i < selection(s, mid, ids).len() ==> (#[trigger] selection(s, mid, ids)[i]).0 == mid
                && ids.contains(selection(s, mid, ids)[i].1) && s.contains(selection(s, mid, ids)[i]),
    decreases s.len(),
{
    if s.len() > 0 {
        let d = s.drop_last();
        assert(sorted_entries(d)) by {
            assert forall|i: int, j: int| 0 <= i < j < d.len() implies key_lt(
                entry_key(#[trigger] d[i]),
                entry_key(#[trigger] d[j]),
            ) by {
                assert(d[i] == s[i] && d[j] == s[j]);
            }
        }
        lemma_selection_ascending(d, mid, ids);
        let rest = selection(d, mid, ids);
        let sel = selection(s, mid, ids);
        let e = s.last();
        assert forall|i: int| 0 <= i < sel.len() implies (#[trigger] sel[i]).0 == mid && ids.contains(
            sel[i].1,
        ) && s.contains(sel[i]) by {
            if i < rest.len() {
                assert(sel[i] == rest[i]);
                assert(d.contains(rest[i]));
                let k = choose|k: int| 0 <= k < d.len() && d[k] == rest[i];
                assert(s[k] == rest[i]);
            } else {
                assert(s[s.len() - 1] == e);
            }
        }
        assert forall|i: int, j: int| 0 <= i < j < sel.len() implies (#[trigger] sel[i]).1
            < (#[trigger] sel[j]).1 by {
            if j < rest.len() {
                assert(sel[i] == rest[i] && sel[j] == rest[j]);
            } else {
                assert(sel[j] == e);
                assert(sel[i] == rest[i]);
                assert(d.contains(rest[i]));
                let k = choose|k: int| 0 <= k < d.len() && d[k] == rest[i];
                assert(s[k] == rest[i]);
                assert(key_lt(entry_key(s[k]), entry_key(s[s.len() - 1])));
            }
        }
    }
}

/// The row that the last pair with id `x` of a list gives.
pub open spec fn last_row<M>(ms: Seq<(i32, M)>, x: i32) -> M
    decreases ms.len(),
{
    if ms.len() == 0 {
        arbitrary()
    } else if ms.last().0 == x {
        ms.last().1
    } else {
        last_row(ms.drop_last(), x)
    }
}

/// In rows in key order, a key finds one row.
pub proof fn lemma_sorted_unique_key<M>(s: Seq<(u64, i32, M)>, a: (u64, i32, M), b: (u64, i32, M))
    requires
        sorted_entries(s),
        s.contains(a),
        s.contains(b),
        entry_key(a) == entry_key(b),
    ensures
        a == b,
{
    let i = choose|i: int| 0 <= i < s.len() && s[i] == a;
    let j = choose|j: int| 0 <= j < s.len() && s[j] == b;
    if i < j {
        assert(key_lt(entry_key(s[i]), entry_key(s[j])));
    } else if j < i {
        assert(key_lt(entry_key(s[j]), entry_key(s[i])));
    }
}

/// Storing a row adds it and keeps every row with another key.
pub proof fn lemma_upsert_keeps_others<M>(s: Seq<(u64, i32, M)>, mid: u64, id: i32, m: M)
    requires
        sorted_entries(s),
    ensures
        upsert(s, mid, id, m).contains((mid, id, m)),
        forall|e: (u64, i32, M)|
            entry_key(e) != (mid, id) ==> (#[trigger] upsert(s, mid, id, m).contains(e)
                <==> s.contains(e)),
{
    lemma_upsert_sorted(s, mid, id, m);
    lemma_position(s, (mid, id));
    let p = position(s, (mid, id)) as int;
    let r = upsert(s, mid, id, m);
    assert(r[p] == (mid, id, m));
    assert forall|e: (u64, i32, M)| entry_key(e) != (mid, id) implies (#[trigger] r.contains(e)
        <==> s.contains(e)) by {
        if p < s.len() && entry_key(s[p]) == (mid, id) {
            if r.contains(e) {
                let i = choose|i: int| 0 <= i < r.len() && r[i] == e;
                assert(i != p);
                assert(s[i] == e);
            }
            if s.contains(e) {
                let i = choose|i: int| 0 <= i < s.len() && s[i] == e;
                assert(i != p);
                assert(r[i] == e);
            }
        } else {
            s.insert_ensures(p, (mid, id, m));
            assert(r == s.insert(p, (mid, id, m)));
            if r.contains(e) {
                let i = choose|i: int| 0 <= i < r.len() && r[i] == e;
                assert(i != p);
                if i < p {
                    assert(s[i] == e);
                } else {
                    assert(r[(i - 1) + 1] == s[i - 1]);
                    assert(s[i - 1] == e);
                }
            }
            if s.contains(e) {
                let i = choose|i: int| 0 <= i < s.len() && s[i] == e;
                if i < p {
                    assert(r[i] == s[i]);
                } else {
                    assert(r[i + 1] == s[i]);
                }
            }
        }
    }
}

/// After storing the rows `ms` of model `mid`: the rows stay in key order,
/// each id of `ms` finds the last row given for it, and every other row was
/// there before.
pub proof fn lemma_upsert_all_content<M>(s: Seq<(u64, i32, M)>, mid: u64, ms: Seq<(i32, M)>)
    requires
        sorted_entries(s),
    ensures
        sorted_entries(upsert_all(s, mid, ms)),
        forall|x: i32|
            #[trigger] row_ids(ms).contains(x) ==> upsert_all(s, mid, ms).contains(
                (mid, x, last_row(ms, x)),
            ),
        forall|f: (u64, i32, M)|
            #[trigger] upsert_all(s, mid, ms).contains(f) && !(f.0 == mid && row_ids(ms).contains(
                f.1,
            )) ==> s.contains(f),
    decreases ms.len(),
{
    lemma_upsert_all_sorted(s, mid, ms);
    if ms.len() > 0 {
        let d = ms.drop_last();
        let (id, m) = ms.last();
        let prev = upsert_all(s, mid, d);
        let r = upsert_all(s, mid, ms);
        lemma_upsert_all_content(s, mid, d);
        lemma_upsert_all_sorted(s, mid, d);
        lemma_upsert_keeps_others(prev, mid, id, m);
        assert forall|x: i32| row_ids(ms).contains(x) == (row_ids(d).contains(x) || x == id) by {
            if row_ids(ms).contains(x) {
                let j = choose|j: int| 0 <= j < ms.len() && (#[trigger] ms[j]).0 == x;
                if j < d.len() {
                    assert(d[j] == ms[j]);
                }
            }
            if row_ids(d).contains(x) {
                let j = choose|j: int| 0 <= j < d.len() && (#[trigger] d[j]).0 == x;
                assert(ms[j] == d[j]);
            }
            if x == id {
                assert(ms[ms.len() - 1].0 == x);
            }
        }
        assert forall|x: i32| #[trigger] row_ids(ms).contains(x) implies r.contains(
            (mid, x, last_row(ms, x)),
        ) by {
            if x != id {
                assert(row_ids(d).contains(x));
                assert(last_row(ms, x) == last_row(d, x));
                assert(prev.contains((mid, x, last_row(d, x))));
                assert(entry_key((mid, x, last_row(d, x))) != (mid, id));
            }
        }
        assert forall|f: (u64, i32, M)|
            #[trigger] r.contains(f) && !(f.0 == mid && row_ids(ms).contains(f.1)) implies s.contains(
            f,
        ) by {
            assert(entry_key(f) != (mid, id));
            assert(prev.contains(f));
        }
    }
}

/// A row of model `mid` with an id in `ids` is among the selected rows.
pub proof fn lemma_selection_complete<M>(
    s: Seq<(u64, i32, M)>,
    mid: u64,
    ids: Set<i32>,
    g: (u64, i32, M),
)
    requires
        s.contains(g),
        g.0 == mid,
        ids.contains(g.1),
    ensures
        selection(s, mid, ids).contains(g),
    decreases s.len(),
{
    let d = s.drop_last();
    if s.last() == g {
        assert(selection(s, mid, ids).last() == g);
    } else {
        let i = choose|i: int| 0 <= i < s.len() && s[i] == g;
        assert(i < s.len() - 1);
        assert(d[i] == g);
        lemma_selection_complete(d, mid, ids, g);
        let sd = selection(d, mid, ids);
        let k = choose|k: int| 0 <= k < sd.len() && sd[k] == g;
        assert(selection(s, mid, ids)[k] == g);
    }
}

/// What a query returns after its first update: storing the rows `ms` of
/// model `mid` and selecting the rows of that model with the ids of `ms`
/// gives one row per id of `ms`, the last row given for it, in strictly
/// increasing id order.
pub proof fn lemma_fresh_query_rows<M>(s: Seq<(u64, i32, M)>, mid: u64, ms: Seq<(i32, M)>)
    requires
        sorted_entries(s),
    ensures
        ({
            let sel = selection(upsert_all(s, mid, ms), mid, row_ids(ms));
            &&& forall|i: int, j: int| 0 <= i < j < sel.len() ==> (#[trigger] sel[i]).1 < (#[trigger] sel[j]).1
            &&& forall|i: int|
                0 <= i < sel.len() ==> row_ids(ms).contains((#[trigger] sel[i]).1) && sel[i] == (
                    mid,
                    sel[i].1,
                    last_row(ms, sel[i].1),
                )
            &&& forall|x: i32|
                #[trigger] row_ids(ms).contains(x) ==> exists|i: int| 0 <= i < sel.len() && sel[i].1 == x
        }),
{
    let r = upsert_all(s, mid, ms);
    let ids = row_ids(ms);
    let sel = selection(r, mid, ids);
    lemma_upsert_all_content(s, mid, ms);
    lemma_selection_ascending(r, mid, ids);
    assert forall|i: int| 0 <= i < sel.len() implies ids.contains((#[trigger] sel[i]).1) && sel[i] == (
        mid,
        sel[i].1,
        last_row(ms, sel[i].1),
    ) by {
        let x = sel[i].1;
        assert(r.contains((mid, x, last_row(ms, x))));
        lemma_sorted_unique_key(r, sel[i], (mid, x, last_row(ms, x)));
    }
    assert forall|x: i32| #[trigger] ids.contains(x) implies exists|i: int|
        0 <= i < sel.len() && sel[i].1 == x by {
        lemma_selection_complete(r, mid, ids, (mid, x, last_row(ms, x)));
        let i = choose|i: int| 0 <= i < sel.len() && sel[i] == (mid, x, last_row(ms, x));
        assert(sel[i].1 == x);
    }
}

/// Without a record of `key` at or after `i`, the queries of the records
/// agree on `key` with those of the records before `i`.
proof fn lemma_queries_suffix(v: Seq<(u64, u64, u64, Vec<i32>)>, i: int, key: (u64, u64))
    requires
        0 <= i <= v.len(),
        forall|j: int| i <= j < v.len() ==> ((#[trigger] v[j]).0, v[j].1) != key,
    ensures
        queries_map(v).contains_key(key) == queries_map(v.take(i)).contains_key(key),
        queries_map(v).contains_key(key) ==> queries_map(v)[key] == queries_map(v.take(i))[key],
    decreases v.len(),
{
    if i < v.len() {
        let d = v.drop_last();
        assert forall|j: int| i <= j < d.len() implies ((#[trigger] d[j]).0, d[j].1) != key by {
            assert(d[j] == v[j]);
        }
        lemma_queries_suffix(d, i, key);
        assert(d.take(i) =~= v.take(i));
    } else {
        assert(v.take(i) =~= v);
    }
}

/// Without a record of `key` at or after `i`, the requests of the records
/// agree on `key` with those of the records before `i`.
proof fn lemma_requests_suffix(v: Seq<(u64, u64, u64)>, i: int, key: u64)
    requires
        0 <= i <= v.len(),
        forall|j: int| i <= j < v.len() ==> (#[trigger] v[j]).0 != key,
    ensures
        requests_map(v).contains_key(key) == requests_map(v.take(i)).contains_key(key),
        requests_map(v).contains_key(key) ==> requests_map(v)[key] == requests_map(v.take(i))[key],
    decreases v.len(),
{
    if i < v.len() {
        let d = v.drop_last();
        assert forall|j: int| i <= j < d.len() implies (#[trigger] d[j]).0 != key by {
            assert(d[j] == v[j]);
        }
        lemma_requests_suffix(d, i, key);
        assert(d.take(i) =~= v.take(i));
    } else {
        assert(v.take(i) =~= v);
    }
}

/// The rows that `delete` keeps: those not of model `mid` with an id in `ids`.
pub open spec fn kept_row<M>(mid: u64, ids: Seq<i32>) -> spec_fn((u64, i32, M)) -> bool {
    |e: (u64, i32, M)| !(e.0 == mid && ids.contains(e.1))
}

impl<M> QueryCache<M> {
    /// The rows are kept in key order.
    #[verifier::type_invariant]
    spec fn rows_sorted(self) -> bool {
        sorted_entries(self.entries@)
    }

    /// The cached rows, in key order.
    pub closed spec fn entries(self) -> Seq<(u64, i32, M)> {
        self.entries@
    }

    /// The models that have a table of rows.
    pub closed spec fn tables(self) -> Set<u64> {
        Set::new(|x: u64| self.tables@.contains(x))
    }

    /// The query (and argument hash) that each request answers.
    pub closed spec fn requests(self) -> Map<u64, (u64, u64)> {
        requests_map(self.requests@)
    }

    /// For each query and argument hash: the model it returned and the ids of
    /// its rows.
    pub closed spec fn queries(self) -> Map<(u64, u64), (u64, Set<i32>)> {
        queries_map(self.queries@)
    }

    /// Every recorded request asks a known query.
    pub open spec fn requests_known(self) -> bool {
        forall|r: u64|
            #[trigger] self.requests().contains_key(r) ==> self.queries().contains_key(
                self.requests()[r],
            )
    }

    /// An empty cache.
    pub fn new() -> (c: Self)
        ensures
            c.entries() == Seq::<(u64, i32, M)>::empty(),
            c.tables() == Set::<u64>::empty(),
            c.requests() == Map::<u64, (u64, u64)>::empty(),
            c.queries() == Map::<(u64, u64), (u64, Set<i32>)>::empty(),
            c.requests_known(),
    {
        let c = QueryCache {
            entries: Vec::new(),
            tables: Vec::new(),
            requests: Vec::new(),
            queries: Vec::new(),
        };
        assert(c.tables() =~= Set::<u64>::empty());
        c
    }

    /// The latest record of a query.
    fn find_query(&self, query_id: u64, hash: u64) -> (res: Option<usize>)
        ensures
            match res {
                Some(k) => {
                    &&& k < self.queries@.len()
                    &&& self.queries@[k as int].0 == query_id
                    &&& self.queries@[k as int].1 == hash
                    &&& self.queries().contains_key((query_id, hash))
                    &&& self.queries()[(query_id, hash)] == (
                        self.queries@[k as int].2,
                        id_set(self.queries@[k as int].3@),
                    )
                },
                None => !self.queries().contains_key((query_id, hash)),
            },
    {
        let ghost key = (query_id, hash);
        let mut i: usize = self.queries.len();
        while i > 0
            invariant
                key == (query_id, hash),
                i <= self.queries@.len(),
                forall|j: int|
                    i <= j < self.queries@.len() ==> ((#[trigger] self.queries@[j]).0,
                    self.queries@[j].1) != key,
            decreases i,
        {
            i = i - 1;
            if self.queries[i].0 == query_id && self.queries[i].1 == hash {
                proof {
                    let v = self.queries@;
                    lemma_queries_suffix(v, i + 1, key);
                    assert(v.take(i + 1).drop_last() =~= v.take(i as int));
                    assert(v.take(i + 1).last() == v[i as int]);
                    assert(queries_map(v.take(i + 1)) == queries_map(v.take(i as int)).insert(
                        (v[i as int].0, v[i as int].1),
                        (v[i as int].2, id_set(v[i as int].3@)),
                    ));
                }
                return Some(i);
            }
        }
        proof {
            lemma_queries_suffix(self.queries@, 0, key);
            assert(self.queries@.take(0) =~= Seq::<(u64, u64, u64, Vec<i32>)>::empty());
        }
        None
    }

    /// Records that `request_id` asks query `query_id` with arguments hashed
    /// to `hash`, unless that query is already known: then nothing changes.
    /// A new query starts with model `0` and no rows.
    pub fn register_request(&mut self, request_id: u64, query_id: u64, hash: u64)
        ensures
            old(self).queries().contains_key((query_id, hash)) ==> {
                &&& final(self).requests() == old(self).requests()
                &&& final(self).queries() == old(self).queries()
            },
            !old(self).queries().contains_key((query_id, hash)) ==> {
                &&& final(self).requests() == old(self).requests().insert(
                    request_id,
                    (query_id, hash),
                )
                &&& final(self).queries() == old(self).queries().insert(
                    (query_id, hash),
                    (0u64, Set::<i32>::empty()),
                )
            },
            final(self).tables() == old(self).tables(),
            final(self).entries() == old(self).entries(),
            old(self).requests_known() ==> final(self).requests_known(),
    {
        proof {
            use_type_invariant(&*self);
        }
        if self.find_query(query_id, hash).is_some() {
            return;
        }
        let ghost old_requests = self.requests@;
        let ghost old_queries = self.queries@;
        let mut requests: Vec<(u64, u64, u64)> = Vec::new();
        std::mem::swap(&mut requests, &mut self.requests);
        requests.push((request_id, query_id, hash));
        self.requests = requests;
        let mut queries: Vec<(u64, u64, u64, Vec<i32>)> = Vec::new();
        std::mem::swap(&mut queries, &mut self.queries);
        queries.push((query_id, hash, 0, Vec::new()));
        self.queries = queries;
        proof {
            assert(self.requests@.drop_last() =~= old_requests);
            assert(self.queries@.drop_last() =~= old_queries);
            assert(id_set(Seq::<i32>::empty()) =~= Set::<i32>::empty());
        }
    }

    /// Stores the rows `models` that query `query_id` (arguments hashed to
    /// `hash`) returned for model `model_id`: the query keeps its model, or
    /// takes `model_id` if it had none (`0`), and gains the rows' ids; the
    /// model gets a table; each row replaces the cached row with its id, or
    /// is added, the later of two rows with the same id staying.
    pub fn update(&mut self, query_id: u64, hash: u64, model_id: u64, models: Vec<(i32, M)>)
        requires
            old(self).queries().contains_key((query_id, hash)),
        ensures
            final(self).queries() == old(self).queries().insert(
                (query_id, hash),
                (
                    if old(self).queries()[(query_id, hash)].0 == 0 {
                        model_id
                    } else {
                        old(self).queries()[(query_id, hash)].0
                    },
                    old(self).queries()[(query_id, hash)].1.union(row_ids(models@)),
                ),
            ),
            final(self).requests() == old(self).requests(),
            final(self).tables() == old(self).tables().insert(model_id),
            final(self).entries() == upsert_all(old(self).entries(), model_id, models@),
            old(self).requests_known() ==> final(self).requests_known(),
    {
        proof {
            use_type_invariant(&*self);
        }
        let k = match self.find_query(query_id, hash) {
            Some(k) => k,
            None => {
                return;
            },
        };
        let ghost old_ids = self.queries@[k as int].3@;
        let ghost old_queries = self.queries@;
        let mut ids: Vec<i32> = Vec::new();
        let mut i: usize = 0;
        while i < self.queries[k].3.len()
            invariant
                k < self.queries@.len(),
                old_ids == self.queries@[k as int].3@,
                i <= old_ids.len(),
                ids@ == old_ids.take(i as int),
            decreases old_ids.len() - i,
        {
            ids.push(self.queries[k].3[i]);
            assert(old_ids.take(i + 1) =~= old_ids.take(i as int).push(old_ids[i as int]));
            i = i + 1;
        }
        assert(old_ids.take(old_ids.len() as int) =~= old_ids);
        let ghost copied = ids@;
        let mut j: usize = 0;
        while j < models.len()
            invariant
                j <= models@.len(),
                ids@ == copied + models@.take(j as int).map_values(|p: (i32, M)| p.0),
            decreases models@.len() - j,
        {
            ids.push(models[j].0);
            assert(models@.take(j + 1).map_values(|p: (i32, M)| p.0) =~= models@.take(
                j as int,
            ).map_values(|p: (i32, M)| p.0).push(models@[j as int].0));
            j = j + 1;
        }
        assert(models@.take(models@.len() as int) =~= models@);
        let old_model = self.queries[k].2;
        let new_model = if old_model == 0 {
            model_id
        } else {
            old_model
        };
        let mut queries: Vec<(u64, u64, u64, Vec<i32>)> = Vec::new();
        std::mem::swap(&mut queries, &mut self.queries);
        queries.push((query_id, hash, new_model, ids));
        self.queries = queries;
        proof {
            assert(self.queries@.drop_last() =~= old_queries);
            let nids = self.queries@.last().3@;
            assert(id_set(nids) =~= id_set(old_ids).union(row_ids(models@))) by {
                assert forall|x: i32| id_set(nids).contains(x) == id_set(old_ids).union(
                    row_ids(models@),
                ).contains(x) by {
                    let ms = models@.map_values(|p: (i32, M)| p.0);
                    if nids.contains(x) {
                        let a = choose|a: int| 0 <= a < nids.len() && nids[a] == x;
                        if a >= old_ids.len() {
                            assert(models@[a - old_ids.len()].0 == x);
                        } else {
                            assert(old_ids[a] == x);
                        }
                    }
                    if old_ids.contains(x) {
                        let a = choose|a: int| 0 <= a < old_ids.len() && old_ids[a] == x;
                        assert(nids[a] == x);
                    }
                    if row_ids(models@).contains(x) {
                        let b = choose|b: int| 0 <= b < models@.len() && (#[trigger] models@[b]).0 == x;
                        assert(nids[old_ids.len() + b] == x);
                    }
                }
            }
        }
        self.add_table(model_id);
        let mut entries: Vec<(u64, i32, M)> = Vec::new();
        std::mem::swap(&mut entries, &mut self.entries);
        let ghost start = entries@;
        let n = models.len();
        let mut rest = models;
        let ghost all = rest@;
        let mut r: usize = 0;
        while r < n
            invariant
                n == all.len(),
                r <= n,
                rest@ == all.skip(r as int),
                sorted_entries(entries@),
                entries@ == upsert_all(start, model_id, all.take(r as int)),
            decreases n - r,
        {
            let (id, m) = rest.remove(0);
            proof {
                assert(all[r as int] == (id, m));
                assert(rest@ =~= all.skip(r + 1));
                assert(all.take(r + 1).drop_last() =~= all.take(r as int));
                lemma_upsert_sorted(entries@, model_id, id, m);
            }
            store(&mut entries, model_id, id, m);
            r = r + 1;
        }
        assert(all.take(n as int) =~= all);
        self.entries = entries;
        proof {
            if old(self).requests_known() {
                assert forall|q: u64| #[trigger] self.requests().contains_key(q) implies self.queries().contains_key(
                    self.requests()[q],
                ) by {
                    assert(old(self).requests().contains_key(q));
                }
            }
        }
    }

    /// Gives model `model_id` a table, if it has none.
    fn add_table(&mut self, model_id: u64)
        ensures
            final(self).tables() == old(self).tables().insert(model_id),
            final(self).entries() == old(self).entries(),
            final(self).requests() == old(self).requests(),
            final(self).queries() == old(self).queries(),
    {
        proof {
            use_type_invariant(&*self);
        }
        let mut has_table = false;
        let mut t: usize = 0;
        while t < self.tables.len()
            invariant
                t <= self.tables@.len(),
                has_table == exists|u: int| 0 <= u < t && self.tables@[u] == model_id,
            decreases self.tables@.len() - t,
        {
            if self.tables[t] == model_id {
                has_table = true;
            }
            t = t + 1;
        }
        let ghost old_tables = self.tables@;
        if !has_table {
            let mut tables: Vec<u64> = Vec::new();
            std::mem::swap(&mut tables, &mut self.tables);
            tables.push(model_id);
            self.tables = tables;
        }
        proof {
            if !has_table {
                assert(self.tables@ == old_tables.push(model_id));
            } else {
                assert(self.tables@ == old_tables);
            }
            let goal = Set::new(|x: u64| old_tables.contains(x)).insert(model_id);
            assert forall|x: u64| #[trigger] self.tables().contains(x) == goal.contains(x) by {
                if self.tables@.contains(x) {
                    let a = choose|a: int| 0 <= a < self.tables@.len() && self.tables@[a] == x;
                    if a < old_tables.len() {
                        assert(old_tables[a] == x);
                    }
                }
                if old_tables.contains(x) {
                    let a = choose|a: int| 0 <= a < old_tables.len() && old_tables[a] == x;
                    assert(self.tables@[a] == x);
                }
                if x == model_id && has_table {
                    let u = choose|u: int| 0 <= u < old_tables.len() && old_tables[u] == model_id;
                    assert(self.tables@[u] == x);
                }
                if x == model_id && !has_table {
                    assert(self.tables@[old_tables.len() as int] == x);
                }
            }
            assert(self.tables() =~= goal);
        }
    }

    /// Whether query `query_id` with arguments hashed to `hash` is known.
    pub fn knows(&self, query_id: u64, hash: u64) -> (res: bool)
        ensures
            res == self.queries().contains_key((query_id, hash)),
    {
        self.find_query(query_id, hash).is_some()
    }

    /// The query (and argument hash) that `request_id` asked, if it is known.
    pub fn request(&self, request_id: u64) -> (res: Option<(u64, u64)>)
        ensures
            res == (if self.requests().contains_key(request_id) {
                Some(self.requests()[request_id])
            } else {
                None
            }),
    {
        let mut i: usize = self.requests.len();
        while i > 0
            invariant
                i <= self.requests@.len(),
                forall|j: int| i <= j < self.requests@.len() ==> (#[trigger] self.requests@[j]).0 != request_id,
            decreases i,
        {
            i = i - 1;
            if self.requests[i].0 == request_id {
                proof {
                    let v = self.requests@;
                    lemma_requests_suffix(v, i + 1, request_id);
                    assert(v.take(i + 1).drop_last() =~= v.take(i as int));
                    assert(v.take(i + 1).last() == v[i as int]);
                    assert(requests_map(v.take(i + 1)) == requests_map(v.take(i as int)).insert(
                        v[i as int].0,
                        (v[i as int].1, v[i as int].2),
                    ));
                }
                return Some((self.requests[i].1, self.requests[i].2));
            }
        }
        proof {
            lemma_requests_suffix(self.requests@, 0, request_id);
            assert(self.requests@.take(0) =~= Seq::<(u64, u64, u64)>::empty());
        }
        None
    }

    /// Drops the cached rows of model `model_id` whose id is in `ids`; the
    /// model gets a table, if it has none.
    pub fn delete(&mut self, model_id: u64, ids: &Vec<i32>)
        ensures
            final(self).entries() == old(self).entries().filter(kept_row(model_id, ids@)),
            final(self).tables() == old(self).tables().insert(model_id),
            final(self).requests() == old(self).requests(),
            final(self).queries() == old(self).queries(),
            old(self).requests_known() ==> final(self).requests_known(),
    {
        proof {
            use_type_invariant(&*self);
        }
        let ghost pred = kept_row::<M>(model_id, ids@);
        let mut rest: Vec<(u64, i32, M)> = Vec::new();
        std::mem::swap(&mut rest, &mut self.entries);
        let ghost all = rest@;
        let n = rest.len();
        let mut kept: Vec<(u64, i32, M)> = Vec::new();
        let mut r: usize = 0;
        while r < n
            invariant
                n == all.len(),
                r <= n,
                pred == kept_row::<M>(model_id, ids@),
                sorted_entries(all),
                rest@ == all.skip(r as int),
                kept@ == all.take(r as int).filter(pred),
                sorted_entries(kept@),
                forall|a: int, b: int|
                    0 <= a < kept@.len() && r <= b < n ==> key_lt(
                        entry_key(#[trigger] kept@[a]),
                        entry_key(#[trigger] all[b]),
                    ),
            decreases n - r,
        {
            let e = rest.remove(0);
            proof {
                assert(all[r as int] == e);
                assert(rest@ =~= all.skip(r + 1));
                assert(all.take(r + 1) =~= all.take(r as int).push(e));
                all.take(r as int).lemma_filter_push(e, pred);
            }
            let mut dropped = false;
            if e.0 == model_id {
                let mut j: usize = 0;
                while j < ids.len()
                    invariant
                        j <= ids@.len(),
                        dropped == exists|x: int| 0 <= x < j && ids@[x] == e.1,
                    decreases ids@.len() - j,
                {
                    if ids[j] == e.1 {
                        dropped = true;
                    }
                    j = j + 1;
                }
            }
            proof {
                if ids@.contains(e.1) && e.0 == model_id {
                    let x = choose|x: int| 0 <= x < ids@.len() && ids@[x] == e.1;
                }
                assert(pred(e) == !dropped);
            }
            if !dropped {
                let ghost before = kept@;
                kept.push(e);
                proof {
                    assert forall|a: int, b: int| 0 <= a < b < kept@.len() implies key_lt(
                        entry_key(#[trigger] kept@[a]),
                        entry_key(#[trigger] kept@[b]),
                    ) by {
                        if b < before.len() {
                            assert(kept@[a] == before[a] && kept@[b] == before[b]);
                        } else {
                            assert(kept@[a] == before[a]);
                            assert(kept@[b] == all[r as int]);
                        }
                    }
                }
            }
            proof {
                assert forall|a: int, b: int| 0 <= a < kept@.len() && r + 1 <= b < n implies key_lt(
                    entry_key(#[trigger] kept@[a]),
                    entry_key(#[trigger] all[b]),
                ) by {
                    assert(key_lt(entry_key(all[r as int]), entry_key(all[b])));
                }
            }
            r = r + 1;
        }
        assert(all.take(n as int) =~= all);
        self.entries = kept;
        self.add_table(model_id);
    }

    /// Applies the events that answer request `request_id`: when the request
    /// and its query are known and some event inserts or updates a row, the
    /// inserted and updated rows are stored for the model of the first of
    /// them (as `update` does), then the deleted ids are dropped from that
    /// model (as `delete` does). Otherwise nothing changes.
    pub fn update_for_request_id(&mut self, request_id: u64, events: Vec<CacheEvent<M>>)
        ensures
            ({
                let ups = upserts(events@);
                let dels = deletes(events@);
                if old(self).requests().contains_key(request_id) && old(self).queries().contains_key(
                    old(self).requests()[request_id],
                ) && ups.len() > 0 {
                    let key = old(self).requests()[request_id];
                    let mid = ups[0].0;
                    let (qm, ids) = old(self).queries()[key];
                    &&& final(self).queries() == old(self).queries().insert(
                        key,
                        (
                            if qm == 0 {
                                mid
                            } else {
                                qm
                            },
                            ids.union(row_ids(id_rows(ups))),
                        ),
                    )
                    &&& final(self).tables() == old(self).tables().insert(mid)
                    &&& final(self).entries() == upsert_all(
                        old(self).entries(),
                        mid,
                        id_rows(ups),
                    ).filter(kept_row(mid, dels))
                    &&& final(self).requests() == old(self).requests()
                } else {
                    &&& final(self).queries() == old(self).queries()
                    &&& final(self).tables() == old(self).tables()
                    &&& final(self).entries() == old(self).entries()
                    &&& final(self).requests() == old(self).requests()
                }
            }),
            old(self).requests().contains_key(request_id) && old(self).queries().contains_key(
                old(self).requests()[request_id],
            ) && upserts(events@).len() > 0 ==> forall|x: i32|
                #[trigger] upserted(events@, x) && !deletes(events@).contains(x)
                    ==> final(self).entries().contains(
                    (upserts(events@)[0].0, x, last_upsert(events@, x)),
                ),
            old(self).requests_known() ==> final(self).requests_known(),
    {
        proof {
            use_type_invariant(&*self);
        }
        let ghost start = self.entries@;
        let ghost evs = events@;
        let key = match self.request(request_id) {
            Some(key) => key,
            None => {
                return;
            },
        };
        if !self.knows(key.0, key.1) {
            return;
        }
        let n = events.len();
        let mut rest = events;
        let ghost all = rest@;
        let mut ups: Vec<(u64, i32, M)> = Vec::new();
        let mut dels: Vec<i32> = Vec::new();
        let mut i: usize = 0;
        while i < n
            invariant
                n == all.len(),
                i <= n,
                rest@ == all.skip(i as int),
                ups@ == upserts(all.take(i as int)),
                dels@ == deletes(all.take(i as int)),
            decreases n - i,
        {
            let e = rest.remove(0);
            proof {
                assert(all[i as int] == e);
                assert(rest@ =~= all.skip(i + 1));
                assert(all.take(i + 1).drop_last() =~= all.take(i as int));
                assert(all.take(i + 1).last() == e);
            }
            match e {
                CacheEvent::Insert(mid, id, m) => ups.push((mid, id, m)),
                CacheEvent::Update(mid, id, m) => ups.push((mid, id, m)),
                CacheEvent::Delete(id) => dels.push(id),
            }
            i = i + 1;
        }
        assert(all.take(n as int) =~= all);
        if ups.len() == 0 {
            return;
        }
        let mid = ups[0].0;
        let ghost up_seq = ups@;
        let m = ups.len();
        let mut rows: Vec<(i32, M)> = Vec::new();
        let mut j: usize = 0;
        while j < m
            invariant
                m == up_seq.len(),
                j <= m,
                ups@ == up_seq.skip(j as int),
                rows@ == id_rows(up_seq.take(j as int)),
            decreases m - j,
        {
            let (_, id, row) = ups.remove(0);
            proof {
                assert(ups@ =~= up_seq.skip(j + 1));
                assert(id_rows(up_seq.take(j + 1)) =~= id_rows(up_seq.take(j as int)).push(
                    (up_seq[j as int].1, up_seq[j as int].2),
                ));
            }
            rows.push((id, row));
            j = j + 1;
        }
        assert(up_seq.take(m as int) =~= up_seq);
        self.update(key.0, key.1, mid, rows);
        self.delete(mid, &dels);
        proof {
            assert forall|x: i32|
                #[trigger] upserted(evs, x) && !deletes(evs).contains(x) implies self.entries().contains(
                (upserts(evs)[0].0, x, last_upsert(evs, x)),
            ) by {
                lemma_batch_last_event_wins(start, evs, x);
            }
        }
    }

    /// The rows that query `query_id` (arguments hashed to `hash`) returned,
    /// copied, in increasing id order; `None` when the query is unknown or its
    /// model has no table.
    pub fn query(&self, query_id: u64, hash: u64) -> (res: Option<Vec<M>>) where M: Clone
        ensures
            match res {
                None => !self.queries().contains_key((query_id, hash)) || !self.tables().contains(
                    self.queries()[(query_id, hash)].0,
                ),
                Some(rows) => {
                    let (mid, ids) = self.queries()[(query_id, hash)];
                    let sel = selection(self.entries(), mid, ids);
                    &&& self.queries().contains_key((query_id, hash))
                    &&& self.tables().contains(mid)
                    &&& rows@.len() == sel.len()
                    &&& forall|i: int| 0 <= i < sel.len() ==> cloned(sel[i].2, #[trigger] rows@[i])
                },
            },
    {
        let k = match self.find_query(query_id, hash) {
            Some(k) => k,
            None => {
                return None;
            },
        };
        let mid = self.queries[k].2;
        let ghost ids = id_set(self.queries@[k as int].3@);
        let mut has_table = false;
        let mut t: usize = 0;
        while t < self.tables.len()
            invariant
                t <= self.tables@.len(),
                has_table == exists|u: int| 0 <= u < t && self.tables@[u] == mid,
            decreases self.tables@.len() - t,
        {
            if self.tables[t] == mid {
                has_table = true;
            }
            t = t + 1;
        }
        if !has_table {
            proof {
                if self.tables@.contains(mid) {
                    let u = choose|u: int| 0 <= u < self.tables@.len() && self.tables@[u] == mid;
                }
            }
            return None;
        }
        assert(self.tables@.contains(mid));
        let ghost s = self.entries@;
        let mut rows: Vec<M> = Vec::new();
        let mut i: usize = 0;
        while i < self.entries.len()
            invariant
                s == self.entries@,
                k < self.queries@.len(),
                mid == self.queries@[k as int].2,
                ids == id_set(self.queries@[k as int].3@),
                i <= s.len(),
                rows@.len() == selection(s.take(i as int), mid, ids).len(),
                forall|j: int|
                    0 <= j < rows@.len() ==> cloned(
                        selection(s.take(i as int), mid, ids)[j].2,
                        #[trigger] rows@[j],
                    ),
            decreases s.len() - i,
        {
            let ghost before = rows@;
            assert(s.take(i + 1).drop_last() =~= s.take(i as int));
            assert(s.take(i + 1).last() == s[i as int]);
            if self.entries[i].0 == mid && self.contains_id(k, self.entries[i].1) {
                let c = self.entries[i].2.clone();
                rows.push(c);
                proof {
                    let sel = selection(s.take(i + 1), mid, ids);
                    assert(sel == selection(s.take(i as int), mid, ids).push(s[i as int]));
                    assert forall|j: int| 0 <= j < rows@.len() implies cloned(
                        sel[j].2,
                        #[trigger] rows@[j],
                    ) by {
                        if j < before.len() {
                            assert(rows@[j] == before[j]);
                        }
                    }
                }
            }
            i = i + 1;
        }
        assert(s.take(s.len() as int) =~= s);
        Some(rows)
    }

    /// Whether the latest record `k` of a query holds `id`.
    fn contains_id(&self, k: usize, id: i32) -> (res: bool)
        requires
            k < self.queries@.len(),
        ensures
            res == id_set(self.queries@[k as int].3@).contains(id),
    {
        let mut i: usize = 0;
        while i < self.queries[k].3.len()
            invariant
                k < self.queries@.len(),
                i <= self.queries@[k as int].3@.len(),
                forall|j: int| 0 <= j < i ==> self.queries@[k as int].3@[j] != id,
            decreases self.queries@[k as int].3@.len() - i,
        {
            if self.queries[k].3[i] == id {
                assert(self.queries@[k as int].3@[i as int] == id);
                return true;
            }
            i = i + 1;
        }
        false
    }
}

/// The first update of a freshly registered query: when `registered` is
/// `before` after `register_request` of a query it did not know, and
/// `updated` is `registered` after `update` of that query with the rows `ms`
/// of model `mid`, the query has model `mid` and the ids of `ms`, the model
/// has a table, and the rows `query` copies are one per id of `ms`, the last
/// row given for it, in strictly increasing id order.
pub proof fn lemma_first_update_after_register<M>(
    before: QueryCache<M>,
    registered: QueryCache<M>,
    updated: QueryCache<M>,
    query_id: u64,
    hash: u64,
    mid: u64,
    ms: Seq<(i32, M)>,
)
    requires
        sorted_entries(before.entries()),
        !before.queries().contains_key((query_id, hash)),
        registered.queries() == before.queries().insert(
            (query_id, hash),
            (0u64, Set::<i32>::empty()),
        ),
        registered.entries() == before.entries(),
        updated.queries() == registered.queries().insert(
            (query_id, hash),
            (
                if registered.queries()[(query_id, hash)].0 == 0 {
                    mid
                } else {
                    registered.queries()[(query_id, hash)].0
                },
                registered.queries()[(query_id, hash)].1.union(row_ids(ms)),
            ),
        ),
        updated.tables() == registered.tables().insert(mid),
        updated.entries() == upsert_all(registered.entries(), mid, ms),
    ensures
        updated.queries().contains_key((query_id, hash)),
        updated.queries()[(query_id, hash)] == (mid, row_ids(ms)),
        updated.tables().contains(mid),
        ({
            let sel = selection(updated.entries(), mid, row_ids(ms));
            &&& forall|i: int, j: int| 0 <= i < j < sel.len() ==> (#[trigger] sel[i]).1 < (#[trigger] sel[j]).1
            &&& forall|i: int|
                0 <= i < sel.len() ==> row_ids(ms).contains((#[trigger] sel[i]).1) && sel[i] == (
                    mid,
                    sel[i].1,
                    last_row(ms, sel[i].1),
                )
            &&& forall|x: i32|
                #[trigger] row_ids(ms).contains(x) ==> exists|i: int| 0 <= i < sel.len() && sel[i].1 == x
        }),
{
    assert(Set::<i32>::empty().union(row_ids(ms)) =~= row_ids(ms));
    lemma_fresh_query_rows(before.entries(), mid, ms);
}

/// Stores one row in a list kept in key order.
fn store<M>(entries: &mut Vec<(u64, i32, M)>, mid: u64, id: i32, m: M)
    requires
        sorted_entries(old(entries)@),
    ensures
        final(entries)@ == upsert(old(entries)@, mid, id, m),
{
    let ghost k = (mid, id);
    let mut i: usize = 0;
    while i < entries.len() && (entries[i].0 < mid || (entries[i].0 == mid && entries[i].1 < id))
        invariant
            k == (mid, id),
            i <= entries@.len(),
            forall|j: int| 0 <= j < i ==> key_lt(entry_key(#[trigger] entries@[j]), k),
        decreases entries@.len() - i,
    {
        i = i + 1;
    }
    proof {
        lemma_position_unique(entries@, k, i as int);
    }
    if i < entries.len() && entries[i].0 == mid && entries[i].1 == id {
        entries.set(i, (mid, id, m));
    } else {
        entries.insert(i, (mid, id, m));
    }
}

} // verus!
