//! Merging a client's backup into the stored backup of one table.

use vstd::prelude::*;
use crate::model::BaseModel;

verus! {

/// The key a record is matched by: its uuid, the empty string when it has none.
pub open spec fn record_key<T: BaseModel>(r: T) -> Seq<char> {
    match r.spec_uuid() {
        Some(k) => k,
        None => Seq::empty(),
    }
}

/// The time a record was last changed; `0` when it does not say.
pub open spec fn record_stamp<T: BaseModel>(r: T) -> u64 {
    match r.spec_updated_at() {
        Some(t) => t,
        None => 0,
    }
}

/// Whether some record of `db` has key `k`.
pub open spec fn has_key<T: BaseModel>(db: Seq<T>, k: Seq<char>) -> bool {
    exists|i: int| 0 <= i < db.len() && record_key(#[trigger] db[i]) == k
}

/// `i` is the position of the first record of `db` with key `k`.
pub open spec fn is_first_with_key<T: BaseModel>(db: Seq<T>, k: Seq<char>, i: int) -> bool {
    &&& 0 <= i < db.len()
    &&& record_key(db[i]) == k
    &&& forall|j: int| 0 <= j < i ==> record_key(#[trigger] db[j]) != k
}

/// The first record of `db` with key `k` (meaningful when `has_key(db, k)`).
pub open spec fn first_with_key<T: BaseModel>(db: Seq<T>, k: Seq<char>) -> T {
    db[choose|i: int| is_first_with_key(db, k, i)]
}

/// `db` with every record of key `k` replaced by `item`.
pub open spec fn replace_key<T: BaseModel>(db: Seq<T>, k: Seq<char>, item: T) -> Seq<T> {
    db.map_values(|x: T| if record_key(x) == k { item } else { x })
}

/// One incoming record merged into the stored ones: an unknown key is
/// appended; a known key is overwritten everywhere when the incoming record
/// is at least as recent as the first stored record with that key, and the
/// stored records are kept otherwise.
pub open spec fn merge_one<T: BaseModel>(db: Seq<T>, item: T) -> Seq<T> {
    let k = record_key(item);
    if has_key(db, k) {
        if record_stamp(item) >= record_stamp(first_with_key(db, k)) {
            replace_key(db, k, item)
        } else {
            db
        }
    } else {
        db.push(item)
    }
}

/// The incoming records merged one after the other, in order.
pub open spec fn merge_all<T: BaseModel>(db: Seq<T>, items: Seq<T>) -> Seq<T>
    decreases items.len(),
{
    if items.len() == 0 {
        db
    } else {
        merge_one(merge_all(db, items.drop_last()), items.last())
    }
}

/// The records that have not been deleted, in order.
pub open spec fn live<T: BaseModel>(s: Seq<T>) -> Seq<T> {
    s.filter(|x: T| x.spec_deleted_at() is None)
}

/// The key of a record as an owned string.
pub fn key_of<T: BaseModel>(r: &T) -> (k: String)
    ensures
        k@ == record_key(*r),
{
    match r.uuid() {
        Some(s) => s,
        None => String::new(),
    }
}

/// The last-change time of a record, `0` when it does not say.
pub fn stamp_of<T: BaseModel>(r: &T) -> (t: u64)
    ensures
        t == record_stamp(*r),
{
    match r.updated_at() {
        Some(t) => t,
        None => 0,
    }
}

/// The position of the first record of `db` whose key is `k`, if any.
pub fn find_key<T: BaseModel>(db: &Vec<T>, k: &String) -> (r: Option<usize>)
    ensures
        match r {
            Some(i) => is_first_with_key(db@, k@, i as int),
            None => !has_key(db@, k@),
        },
{
    let mut i: usize = 0;
    while i < db.len()
        invariant
            i <= db.len(),
            forall|j: int| 0 <= j < i ==> record_key(#[trigger] db@[j]) != k@,
        decreases db.len() - i,
    {
        let ki = key_of(&db[i]);
        if ki == *k {
            return Some(i);
        }
        i = i + 1;
    }
    None
}

/// A first position of a key is the position `first_with_key` picks.
pub proof fn lemma_first_unique<T: BaseModel>(db: Seq<T>, k: Seq<char>, i: int)
    requires
        is_first_with_key(db, k, i),
    ensures
        has_key(db, k),
        first_with_key(db, k) == db[i],
{
    assert(record_key(db[i]) == k);
    let c = choose|c: int| is_first_with_key(db, k, c);
    assert(is_first_with_key(db, k, c));
    if c < i {
        assert(record_key(db[c]) != k);
    } else if c > i {
        assert(record_key(db[i]) != k);
    }
}

/// Overwrites every record of `db` whose key is `k` with a copy of `item`.
fn replace_all<T: BaseModel>(db: &mut Vec<T>, k: &String, item: &T)
    requires
        record_key(*item) == k@,
    ensures
        final(db)@ == replace_key(old(db)@, k@, *item),
{
    let ghost start = db@;
    let mut j: usize = 0;
    while j < db.len()
        invariant
            db@.len() == start.len(),
            j <= db@.len(),
            forall|m: int|
                0 <= m < j ==> #[trigger] db@[m] == (if record_key(start[m]) == k@ {
                    *item
                } else {
                    start[m]
                }),
            forall|m: int| j <= m < db@.len() ==> #[trigger] db@[m] == start[m],
        decreases db@.len() - j,
    {
        let kj = key_of(&db[j]);
        if kj == *k {
            db.set(j, item.duplicate());
        }
        j = j + 1;
    }
    assert(db@ =~= replace_key(start, k@, *item));
}

/// Merges one incoming record into the stored records.
pub fn merge_record<T: BaseModel>(db: &mut Vec<T>, item: &T)
    ensures
        final(db)@ == merge_one(old(db)@, *item),
{
    let k = key_of(item);
    match find_key(db, &k) {
        Some(i) => {
            proof {
                lemma_first_unique(db@, k@, i as int);
            }
            if stamp_of(item) >= stamp_of(&db[i]) {
                replace_all(db, &k, item);
            }
        },
        None => {
            db.push(item.duplicate());
        },
    }
}

/// Merges the incoming records, in order, into the stored records.
pub fn merge_records<T: BaseModel>(db: &mut Vec<T>, items: &Vec<T>)
    ensures
        final(db)@ == merge_all(old(db)@, items@),
{
    let ghost start = db@;
    let mut i: usize = 0;
    while i < items.len()
        invariant
            i <= items@.len(),
            db@ == merge_all(start, items@.take(i as int)),
        decreases items@.len() - i,
    {
        assert(items@.take(i + 1).drop_last() =~= items@.take(i as int));
        merge_record(db, &items[i]);
        i = i + 1;
    }
    assert(items@.take(items@.len() as int) =~= items@);
}

/// The records that have not been deleted, in their order.
pub fn live_records<T: BaseModel>(records: Vec<T>) -> (r: Vec<T>)
    ensures
        r@ == live(records@),
{
    let mut r: Vec<T> = Vec::new();
    let mut i: usize = 0;
    let n = records.len();
    while i < n
        invariant
            n == records@.len(),
            i <= n,
            r@ == live(records@.take(i as int)),
        decreases n - i,
    {
        proof {
            reveal(Seq::filter);
            assert(records@.take(i + 1).drop_last() =~= records@.take(i as int));
        }
        let rec = &records[i];
        if rec.deleted_at().is_none() {
            r.push(rec.duplicate());
        }
        i = i + 1;
    }
    assert(records@.take(n as int) =~= records@);
    r
}

/// The view of an optional vector: its elements, if any.
pub open spec fn opt_seq<T>(o: Option<Vec<T>>) -> Option<Seq<T>> {
    match o {
        Some(v) => Some(v@),
        None => None,
    }
}

/// What a table's stored backup becomes: nothing when the stored payload
/// could not be read; otherwise the stored records, with the incoming ones
/// merged in when they could be read, less the deleted records.
pub open spec fn backup_result<T: BaseModel>(stored: Option<Seq<T>>, incoming: Option<Seq<T>>) -> Seq<T> {
    match stored {
        None => Seq::empty(),
        Some(db) => live(merged(db, incoming)),
    }
}

/// The stored records with the incoming ones merged in, when there are any.
pub open spec fn merged<T: BaseModel>(db: Seq<T>, incoming: Option<Seq<T>>) -> Seq<T> {
    match incoming {
        Some(items) => merge_all(db, items),
        None => db,
    }
}

/// Merges a client's records of one table into the stored ones and drops
/// the deleted records. `stored` is `None` when the stored payload could not
/// be unpacked (it then counts as empty and the incoming records are
/// ignored); `incoming` is `None` when the client's payload could not be
/// read.
pub fn backup_table<T: BaseModel>(stored: Option<Vec<T>>, incoming: Option<Vec<T>>) -> (r: Vec<T>)
    ensures
        r@ == backup_result(opt_seq(stored), opt_seq(incoming)),
{
    match stored {
        None => Vec::new(),
        Some(db) => {
            let mut db = db;
            match incoming {
                Some(items) => merge_records(&mut db, &items),
                None => {},
            }
            live_records(db)
        },
    }
}

/// What a table's stored payload yields once read: `None` when it could not
/// be unpacked; an unpacked payload whose JSON did not parse counts as an
/// empty table.
pub open spec fn stored_records<T>(stored: Option<Option<Vec<T>>>) -> Option<Seq<T>> {
    match stored {
        None => None,
        Some(None) => Some(Seq::empty()),
        Some(Some(v)) => Some(v@),
    }
}

/// What a client's payload yields once read: records only when it could be
/// unpacked and its JSON parsed.
pub open spec fn incoming_records<T>(incoming: Option<Option<Vec<T>>>) -> Option<Seq<T>> {
    match incoming {
        Some(Some(v)) => Some(v@),
        _ => None,
    }
}

/// Backs up one table from what its two payloads yielded: the outer
/// `None` when a payload could not be unpacked, the inner `None` when its
/// JSON did not parse. Unparsable stored JSON counts as an empty table,
/// unparsable incoming JSON as no incoming records.
pub fn backup_parsed_table<T: BaseModel>(
    stored: Option<Option<Vec<T>>>,
    incoming: Option<Option<Vec<T>>>,
) -> (r: Vec<T>)
    ensures
        r@ == backup_result(stored_records(stored), incoming_records(incoming)),
{
    let ghost stored_view = stored_records(stored);
    let ghost incoming_view = incoming_records(incoming);
    let db = match stored {
        None => None,
        Some(None) => Some(Vec::new()),
        Some(Some(v)) => Some(v),
    };
    let items = match incoming {
        Some(Some(v)) => Some(v),
        _ => None,
    };
    assert(opt_seq(db) == stored_view);
    assert(opt_seq(items) == incoming_view);
    backup_table(db, items)
}

proof fn lemma_replace_keys<T: BaseModel>(db: Seq<T>, item: T)
    ensures
        replace_key(db, record_key(item), item).len() == db.len(),
        forall|i: int|
            0 <= i < db.len() ==> record_key(#[trigger] replace_key(db, record_key(item), item)[i])
                == record_key(db[i]),
{
}

proof fn lemma_merge_one_keys<T: BaseModel>(db: Seq<T>, item: T, k: Seq<char>)
    ensures
        has_key(merge_one(db, item), k) <==> (has_key(db, k) || k == record_key(item)),
        merge_one(db, item).len() >= db.len(),
{
    let r = merge_one(db, item);
    let ki = record_key(item);
    lemma_replace_keys(db, item);
    if has_key(db, ki) {
        if has_key(db, k) {
            let i = choose|i: int| 0 <= i < db.len() && record_key(#[trigger] db[i]) == k;
            assert(record_key(r[i]) == k);
        }
        if has_key(r, k) {
            let i = choose|i: int| 0 <= i < r.len() && record_key(#[trigger] r[i]) == k;
            assert(record_key(db[i]) == k);
        }
        if k == ki {
            let i = choose|i: int| 0 <= i < db.len() && record_key(#[trigger] db[i]) == ki;
            assert(record_key(r[i]) == k);
        }
    } else {
        assert(r == db.push(item));
        if has_key(db, k) {
            let i = choose|i: int| 0 <= i < db.len() && record_key(#[trigger] db[i]) == k;
            assert(r[i] == db[i]);
        }
        if k == ki {
            assert(r[db.len() as int] == item);
        }
        if has_key(r, k) {
            let i = choose|i: int| 0 <= i < r.len() && record_key(#[trigger] r[i]) == k;
            if i < db.len() {
                assert(r[i] == db[i]);
            }
        }
    }
}

/// No record is lost: after a merge, a key is present exactly when it was
/// stored before or came with one of the incoming records.
pub proof fn law_merge_keeps_keys<T: BaseModel>(db: Seq<T>, items: Seq<T>, k: Seq<char>)
    ensures
        has_key(merge_all(db, items), k) <==> (has_key(db, k) || exists|j: int|
            0 <= j < items.len() && record_key(#[trigger] items[j]) == k),
    decreases items.len(),
{
    if items.len() > 0 {
        let rest = items.drop_last();
        law_merge_keeps_keys(db, rest, k);
        lemma_merge_one_keys(merge_all(db, rest), items.last(), k);
        if exists|j: int| 0 <= j < rest.len() && record_key(#[trigger] rest[j]) == k {
            let j = choose|j: int| 0 <= j < rest.len() && record_key(#[trigger] rest[j]) == k;
            assert(items[j] == rest[j]);
        }
        if exists|j: int| 0 <= j < items.len() && record_key(#[trigger] items[j]) == k {
            let j = choose|j: int| 0 <= j < items.len() && record_key(#[trigger] items[j]) == k;
            if j < rest.len() {
                assert(items[j] == rest[j]);
            }
        }
    }
}

proof fn lemma_merge_one_untouched<T: BaseModel>(db: Seq<T>, item: T, i: int)
    requires
        0 <= i < db.len(),
        record_key(db[i]) != record_key(item),
    ensures
        merge_one(db, item).len() >= db.len(),
        merge_one(db, item)[i] == db[i],
{
}

/// Stored records whose key none of the incoming records carries are kept,
/// unchanged and at their place.
pub proof fn law_merge_keeps_unsent<T: BaseModel>(db: Seq<T>, items: Seq<T>, i: int)
    requires
        0 <= i < db.len(),
        forall|j: int| 0 <= j < items.len() ==> record_key(#[trigger] items[j]) != record_key(db[i]),
    ensures
        merge_all(db, items).len() >= db.len(),
        merge_all(db, items)[i] == db[i],
    decreases items.len(),
{
    if items.len() > 0 {
        let rest = items.drop_last();
        assert forall|j: int| 0 <= j < rest.len() implies record_key(#[trigger] rest[j]) != record_key(
            db[i],
        ) by {
            assert(rest[j] == items[j]);
        }
        law_merge_keeps_unsent(db, rest, i);
        assert(record_key(items.last()) != record_key(db[i])) by {
            assert(items.last() == items[items.len() - 1]);
        }
        lemma_merge_one_untouched(merge_all(db, rest), items.last(), i);
    }
}

proof fn lemma_merge_one_newer<T: BaseModel>(db: Seq<T>, item: T, k: Seq<char>)
    requires
        has_key(db, k),
    ensures
        has_key(merge_one(db, item), k),
        record_stamp(first_with_key(merge_one(db, item), k)) >= record_stamp(first_with_key(db, k)),
{
    let w = choose|i: int| 0 <= i < db.len() && record_key(#[trigger] db[i]) == k;
    lemma_first_exists(db, k, w);
    let i = choose|i: int| is_first_with_key(db, k, i);
    lemma_first_unique(db, k, i);
    let r = merge_one(db, item);
    let ki = record_key(item);
    lemma_replace_keys(db, item);
    if has_key(db, ki) {
        if record_stamp(item) >= record_stamp(first_with_key(db, ki)) {
            assert(is_first_with_key(r, k, i));
            lemma_first_unique(r, k, i);
        } else {
            assert(r == db);
        }
    } else {
        assert(r == db.push(item));
        assert(r[i] == db[i]);
        assert(is_first_with_key(r, k, i));
        lemma_first_unique(r, k, i);
    }
}

/// Every key of `db` has a first position.
proof fn lemma_first_exists<T: BaseModel>(db: Seq<T>, k: Seq<char>, w: int)
    requires
        0 <= w < db.len(),
        record_key(db[w]) == k,
    ensures
        exists|i: int| is_first_with_key(db, k, i),
    decreases w,
{
    if exists|j: int| 0 <= j < w && record_key(#[trigger] db[j]) == k {
        let j = choose|j: int| 0 <= j < w && record_key(#[trigger] db[j]) == k;
        lemma_first_exists(db, k, j);
    } else {
        assert(is_first_with_key(db, k, w));
    }
}

/// Stored data never goes back in time: for every stored key, the record a
/// lookup by that key finds after the merge is at least as recent as the one
/// it found before.
pub proof fn law_merge_never_older<T: BaseModel>(db: Seq<T>, items: Seq<T>, k: Seq<char>)
    requires
        has_key(db, k),
    ensures
        has_key(merge_all(db, items), k),
        record_stamp(first_with_key(merge_all(db, items), k)) >= record_stamp(first_with_key(db, k)),
    decreases items.len(),
{
    if items.len() > 0 {
        let rest = items.drop_last();
        law_merge_never_older(db, rest, k);
        lemma_merge_one_newer(merge_all(db, rest), items.last(), k);
    }
}

/// The latest write wins: a record that is new, or at least as recent as
/// the stored record with its key, is what a lookup by its key finds after
/// it is merged in.
pub proof fn law_newer_record_wins<T: BaseModel>(db: Seq<T>, item: T)
    requires
        has_key(db, record_key(item)) ==> record_stamp(item) >= record_stamp(
            first_with_key(db, record_key(item)),
        ),
    ensures
        has_key(merge_one(db, item), record_key(item)),
        first_with_key(merge_one(db, item), record_key(item)) == item,
{
    let k = record_key(item);
    let r = merge_one(db, item);
    lemma_replace_keys(db, item);
    if has_key(db, k) {
        let w = choose|i: int| 0 <= i < db.len() && record_key(#[trigger] db[i]) == k;
        lemma_first_exists(db, k, w);
        let i = choose|i: int| is_first_with_key(db, k, i);
        assert(is_first_with_key(r, k, i));
        lemma_first_unique(r, k, i);
    } else {
        assert(r == db.push(item));
        assert(is_first_with_key(r, k, db.len() as int)) by {
            assert forall|j: int| 0 <= j < db.len() implies record_key(#[trigger] r[j]) != k by {
                assert(r[j] == db[j]);
            }
        }
        lemma_first_unique(r, k, db.len() as int);
    }
}

/// Sending the same record twice has the effect of sending it once.
pub proof fn law_merge_one_idempotent<T: BaseModel>(db: Seq<T>, item: T)
    ensures
        merge_one(merge_one(db, item), item) == merge_one(db, item),
{
    let k = record_key(item);
    let r = merge_one(db, item);
    if has_key(db, k) && record_stamp(item) < record_stamp(first_with_key(db, k)) {
        assert(r == db);
    } else {
        law_newer_record_wins(db, item);
        lemma_replace_keys(r, item);
        let r2 = merge_one(r, item);
        assert(r2 == replace_key(r, k, item));
        if has_key(db, k) {
            assert(r == replace_key(db, k, item));
        } else {
            assert(r == db.push(item));
        }
        assert(r2 =~= r);
    }
}

/// Nothing incoming leaves the stored records as they are.
pub proof fn law_merge_nothing<T: BaseModel>(db: Seq<T>)
    ensures
        merge_all(db, Seq::<T>::empty()) == db,
{
}

/// No deleted record remains in what a backup stores, and every merged
/// record that is not deleted is kept.
pub proof fn law_backup_drops_deleted<T: BaseModel>(stored: Option<Seq<T>>, incoming: Option<Seq<T>>)
    ensures
        forall|i: int|
            0 <= i < backup_result(stored, incoming).len() ==> (#[trigger] backup_result(
                stored,
                incoming,
            )[i]).spec_deleted_at() is None,
        stored is Some ==> forall|i: int|
            0 <= i < merged(stored->0, incoming).len() && (#[trigger] merged(stored->0, incoming)[i]).spec_deleted_at() is None
                ==> backup_result(stored, incoming).contains(merged(stored->0, incoming)[i]),
{
    broadcast use vstd::seq_lib::group_filter_ensures;
    if let Some(db) = stored {
        let m = merged(db, incoming);
        let pred = |x: T| x.spec_deleted_at() is None;
        assert(backup_result(stored, incoming) == m.filter(pred));
        assert forall|i: int| 0 <= i < m.len() && (#[trigger] m[i]).spec_deleted_at() is None implies m.filter(pred).contains(m[i]) by {
            assert(pred(m[i]));
        }
    }
}

/// The latest last-change time known for key `k` once the incoming records
/// are merged: the most recent of the first stored record with that key and
/// the incoming records with that key; `-1` when the key occurs in neither.
pub open spec fn top_stamp<T: BaseModel>(db: Seq<T>, items: Seq<T>, k: Seq<char>) -> int
    decreases items.len(),
{
    if items.len() == 0 {
        if has_key(db, k) {
            record_stamp(first_with_key(db, k)) as int
        } else {
            -1
        }
    } else {
        let t = top_stamp(db, items.drop_last(), k);
        if record_key(items.last()) == k && record_stamp(items.last()) >= t {
            record_stamp(items.last()) as int
        } else {
            t
        }
    }
}

/// The position of the incoming record that ends up stored under key `k`:
/// the last one that was at least as recent as everything before it.
/// `None` when the stored records keep their own.
pub open spec fn winner<T: BaseModel>(db: Seq<T>, items: Seq<T>, k: Seq<char>) -> Option<int>
    decreases items.len(),
{
    if items.len() == 0 {
        None
    } else if record_key(items.last()) == k && record_stamp(items.last()) >= top_stamp(
        db,
        items.drop_last(),
        k,
    ) {
        Some(items.len() - 1)
    } else {
        winner(db, items.drop_last(), k)
    }
}

proof fn lemma_winner_facts<T: BaseModel>(db: Seq<T>, items: Seq<T>, k: Seq<char>)
    ensures
        forall|n: int|
            0 <= n < items.len() && record_key(#[trigger] items[n]) == k ==> record_stamp(items[n])
                <= top_stamp(db, items, k),
        winner(db, items, k) matches Some(w) ==> {
            &&& 0 <= w < items.len()
            &&& record_key(items[w]) == k
            &&& record_stamp(items[w]) == top_stamp(db, items, k)
            &&& forall|n: int|
                w < n < items.len() && record_key(#[trigger] items[n]) == k ==> record_stamp(items[n])
                    < top_stamp(db, items, k)
        },
        winner(db, items, k) is None ==> forall|n: int|
            0 <= n < items.len() && record_key(#[trigger] items[n]) == k ==> record_stamp(items[n])
                < top_stamp(db, items, k),
    decreases items.len(),
{
    if items.len() > 0 {
        let rest = items.drop_last();
        lemma_winner_facts(db, rest, k);
        assert forall|n: int| 0 <= n < rest.len() implies #[trigger] items[n] == rest[n] by {}
    }
}

proof fn lemma_first_pass<T: BaseModel>(db: Seq<T>, items: Seq<T>, k: Seq<char>)
    ensures
        has_key(merge_all(db, items), k) ==> record_stamp(first_with_key(merge_all(db, items), k))
            == top_stamp(db, items, k),
        !has_key(merge_all(db, items), k) ==> top_stamp(db, items, k) == -1,
        winner(db, items, k) matches Some(w) ==> forall|p: int|
            0 <= p < merge_all(db, items).len() && record_key(#[trigger] merge_all(db, items)[p])
                == k ==> merge_all(db, items)[p] == items[w],
        winner(db, items, k) is None ==> forall|p: int|
            0 <= p < merge_all(db, items).len() && record_key(#[trigger] merge_all(db, items)[p])
                == k ==> p < db.len() && merge_all(db, items)[p] == db[p],
    decreases items.len(),
{
    lemma_winner_facts(db, items, k);
    if items.len() > 0 {
        let rest = items.drop_last();
        let x = items.last();
        let k0 = record_key(x);
        let d0 = merge_all(db, rest);
        let d = merge_all(db, items);
        lemma_first_pass(db, rest, k);
        lemma_winner_facts(db, rest, k);
        lemma_merge_one_keys(d0, x, k);
        lemma_replace_keys(d0, x);
        assert(d == merge_one(d0, x));
        if let Some(w) = winner(db, rest, k) {
            assert(items[w] == rest[w]);
        }
        if k != k0 {
            // the records of key `k` are untouched
            assert forall|p: int| 0 <= p < d.len() && record_key(#[trigger] d[p]) == k implies p
                < d0.len() && d[p] == d0[p] by {
                if !has_key(d0, k0) {
                    assert(d == d0.push(x));
                }
            }
            if has_key(d0, k) {
                let w0 = choose|i: int| 0 <= i < d0.len() && record_key(#[trigger] d0[i]) == k;
                lemma_first_exists(d0, k, w0);
                let i = choose|i: int| is_first_with_key(d0, k, i);
                lemma_first_unique(d0, k, i);
                assert(d[i] == d0[i]);
                assert(is_first_with_key(d, k, i)) by {
                    assert forall|j: int| 0 <= j < i implies record_key(#[trigger] d[j]) != k by {
                        assert(record_key(d[j]) == record_key(d0[j]));
                    }
                }
                lemma_first_unique(d, k, i);
            }
        } else if has_key(d0, k) {
            let w0 = choose|i: int| 0 <= i < d0.len() && record_key(#[trigger] d0[i]) == k;
            lemma_first_exists(d0, k, w0);
            let i = choose|i: int| is_first_with_key(d0, k, i);
            lemma_first_unique(d0, k, i);
            if record_stamp(x) >= record_stamp(first_with_key(d0, k)) {
                assert(d == replace_key(d0, k, x));
                assert(is_first_with_key(d, k, i));
                lemma_first_unique(d, k, i);
                assert(winner(db, items, k) == Some(items.len() - 1));
            } else {
                assert(d == d0);
            }
        } else {
            assert(d == d0.push(x));
            assert(is_first_with_key(d, k, d0.len() as int)) by {
                assert forall|j: int| 0 <= j < d0.len() implies record_key(#[trigger] d[j]) != k by {
                    assert(d[j] == d0[j]);
                }
            }
            lemma_first_unique(d, k, d0.len() as int);
            assert forall|p: int| 0 <= p < d.len() && record_key(#[trigger] d[p]) == k implies d[p]
                == x by {
                if p < d0.len() {
                    assert(d[p] == d0[p]);
                }
            }
        }
    }
}

/// First positions survive appending a record.
proof fn lemma_first_push<T: BaseModel>(s: Seq<T>, a: T, k: Seq<char>)
    ensures
        has_key(s, k) ==> has_key(s.push(a), k) && first_with_key(s.push(a), k) == first_with_key(s, k),
        !has_key(s, k) && record_key(a) == k ==> has_key(s.push(a), k) && first_with_key(s.push(a), k)
            == a,
{
    let t = s.push(a);
    if has_key(s, k) {
        let w = choose|i: int| 0 <= i < s.len() && record_key(#[trigger] s[i]) == k;
        lemma_first_exists(s, k, w);
        let f = choose|i: int| is_first_with_key(s, k, i);
        lemma_first_unique(s, k, f);
        assert(t[f] == s[f]);
        assert(is_first_with_key(t, k, f)) by {
            assert forall|j: int| 0 <= j < f implies record_key(#[trigger] t[j]) != k by {
                assert(t[j] == s[j]);
            }
        }
        lemma_first_unique(t, k, f);
    } else if record_key(a) == k {
        assert(t[s.len() as int] == a);
        assert(is_first_with_key(t, k, s.len() as int)) by {
            assert forall|j: int| 0 <= j < s.len() implies record_key(#[trigger] t[j]) != k by {
                assert(t[j] == s[j]);
            }
        }
        lemma_first_unique(t, k, s.len() as int);
    }
}

/// When no record of key `k` is deleted, dropping the deleted records keeps
/// the first record of that key.
proof fn lemma_live_first<T: BaseModel>(s: Seq<T>, k: Seq<char>)
    requires
        has_key(s, k),
        forall|p: int| 0 <= p < s.len() && record_key(#[trigger] s[p]) == k ==> s[p].spec_deleted_at() is None,
    ensures
        has_key(live(s), k),
        first_with_key(live(s), k) == first_with_key(s, k),
    decreases s.len(),
{
    broadcast use Seq::lemma_filter_push, Seq::lemma_filter_contains_rev;

    let pred = |x: T| x.spec_deleted_at() is None;
    let rest = s.drop_last();
    let a = s.last();
    assert(s == rest.push(a));
    assert(live(s) == rest.filter(pred).push(a) || live(s) == rest.filter(pred));
    lemma_first_push(rest, a, k);
    if has_key(rest, k) {
        lemma_live_first(rest, k);
        if pred(a) {
            assert(live(s) == live(rest).push(a));
            lemma_first_push(live(rest), a, k);
        } else {
            assert(live(s) == live(rest));
        }
    } else {
        assert(record_key(a) == k) by {
            let w = choose|i: int| 0 <= i < s.len() && record_key(#[trigger] s[i]) == k;
            if w < rest.len() {
                assert(s[w] == rest[w]);
            }
        }
        assert(pred(a));
        assert(live(s) == live(rest).push(a));
        assert(!has_key(live(rest), k)) by {
            if has_key(live(rest), k) {
                let i = choose|i: int| 0 <= i < live(rest).len() && record_key(#[trigger] live(rest)[i]) == k;
                assert(live(rest).contains(live(rest)[i]));
                assert(rest.contains(live(rest)[i]));
            }
        }
        lemma_first_push(live(rest), a, k);
    }
}

/// A sequence whose records are all live is its own live part.
proof fn lemma_live_of_live<T: BaseModel>(s: Seq<T>)
    requires
        forall|p: int| 0 <= p < s.len() ==> (#[trigger] s[p]).spec_deleted_at() is None,
    ensures
        live(s) == s,
    decreases s.len(),
{
    broadcast use Seq::lemma_filter_push;

    if s.len() > 0 {
        let rest = s.drop_last();
        assert(s == rest.push(s.last()));
        assert forall|p: int| 0 <= p < rest.len() implies (#[trigger] rest[p]).spec_deleted_at() is None by {
            assert(rest[p] == s[p]);
        }
        lemma_live_of_live(rest);
    } else {
        reveal(Seq::filter);
    }
}

/// Appending deleted records does not change the live part.
proof fn lemma_live_dead_tail<T: BaseModel>(b: Seq<T>, e: Seq<T>)
    requires
        e.len() >= b.len(),
        forall|p: int| 0 <= p < b.len() ==> #[trigger] e[p] == b[p],
        forall|p: int| b.len() <= p < e.len() ==> (#[trigger] e[p]).spec_deleted_at() is Some,
    ensures
        live(e) == live(b),
    decreases e.len() - b.len(),
{
    broadcast use Seq::lemma_filter_push;

    if e.len() == b.len() {
        assert(e =~= b);
    } else {
        let rest = e.drop_last();
        assert(e == rest.push(e.last()));
        assert(e.last() == e[e.len() - 1]);
        lemma_live_dead_tail(b, rest);
    }
}

/// A key whose winning incoming record is a deleted one.
pub open spec fn dead<T: BaseModel>(db: Seq<T>, items: Seq<T>, k: Seq<char>) -> bool {
    winner(db, items, k) matches Some(w) && items[w].spec_deleted_at() is Some
}

/// What a second merge of the same incoming records needs of its starting
/// point `b`: records of a key with a winning record are that record, the
/// first record of a key is as recent as the key ever gets, and every
/// incoming key is present unless its winning record is deleted.
pub open spec fn replay_base<T: BaseModel>(db: Seq<T>, items: Seq<T>, b: Seq<T>) -> bool {
    &&& forall|p: int|
        0 <= p < b.len() ==> (winner(db, items, record_key(#[trigger] b[p])) matches Some(w) ==> b[p]
            == items[w])
    &&& forall|k: Seq<char>|
        #![trigger first_with_key(b, k)]
        has_key(b, k) ==> record_stamp(first_with_key(b, k)) == top_stamp(db, items, k)
    &&& forall|j: int|
        0 <= j < items.len() ==> has_key(b, record_key(#[trigger] items[j])) || dead(
            db,
            items,
            record_key(items[j]),
        )
}

/// How far a second merge of the same incoming records, started from `b`,
/// has come after `n` records: the records of `b` keep their keys and
/// places; those whose key's winning record is behind are back as in `b`;
/// records of a key whose winning record is ahead are no more recent than it
/// and equal to each other; records appended after `b` are of dead keys that
/// `b` lacks; and every key seen so far is present.
pub open spec fn replayed<T: BaseModel>(db: Seq<T>, items: Seq<T>, b: Seq<T>, e: Seq<T>, n: int) -> bool {
    &&& e.len() >= b.len()
    &&& forall|p: int| 0 <= p < b.len() ==> record_key(#[trigger] e[p]) == record_key(b[p])
    &&& forall|p: int|
        0 <= p < b.len() && (match winner(db, items, record_key(b[p])) {
            Some(w) => w < n,
            None => true,
        }) ==> #[trigger] e[p] == b[p]
    &&& forall|p: int|
        0 <= p < e.len() && (winner(db, items, record_key(e[p])) matches Some(w) && w >= n)
            ==> record_stamp(#[trigger] e[p]) <= top_stamp(db, items, record_key(e[p]))
    &&& forall|p: int, q: int|
        0 <= p < e.len() && 0 <= q < e.len() && record_key(e[p]) == record_key(e[q]) && (winner(
            db,
            items,
            record_key(e[p]),
        ) matches Some(w) && w >= n) ==> #[trigger] e[p] == #[trigger] e[q]
    &&& forall|p: int|
        b.len() <= p < e.len() ==> {
            &&& !has_key(b, record_key(#[trigger] e[p]))
            &&& dead(db, items, record_key(e[p]))
            &&& (winner(db, items, record_key(e[p])) matches Some(w) ==> (w < n ==> e[p] == items[w]))
        }
    &&& forall|j: int| 0 <= j < n ==> has_key(e, record_key(#[trigger] items[j]))
}

proof fn lemma_replay_start<T: BaseModel>(db: Seq<T>, items: Seq<T>, b: Seq<T>)
    requires
        replay_base(db, items, b),
    ensures
        replayed(db, items, b, b, 0),
{
    assert forall|p: int|
        0 <= p < b.len() && (winner(db, items, record_key(b[p])) matches Some(w) && w >= 0) implies record_stamp(#[trigger] b[p])
        <= top_stamp(db, items, record_key(b[p])) by {
        lemma_winner_facts(db, items, record_key(b[p]));
    }
}

proof fn lemma_replay_step<T: BaseModel>(db: Seq<T>, items: Seq<T>, b: Seq<T>, e0: Seq<T>, n: int)
    requires
        0 <= n < items.len(),
        replay_base(db, items, b),
        replayed(db, items, b, e0, n),
    ensures
        replayed(db, items, b, merge_one(e0, items[n]), n + 1),
{
    let x = items[n];
    let k0 = record_key(x);
    let e = merge_one(e0, x);
    lemma_winner_facts(db, items, k0);
    lemma_replace_keys(e0, x);
    lemma_merge_one_keys(e0, x, k0);
    // where the first record of `k0` stands, and how recent it is
    if has_key(e0, k0) {
        let w0 = choose|i: int| 0 <= i < e0.len() && record_key(#[trigger] e0[i]) == k0;
        lemma_first_exists(e0, k0, w0);
        let f = choose|i: int| is_first_with_key(e0, k0, i);
        lemma_first_unique(e0, k0, f);
        if has_key(b, k0) {
            let v0 = choose|i: int| 0 <= i < b.len() && record_key(#[trigger] b[i]) == k0;
            lemma_first_exists(b, k0, v0);
            let g = choose|i: int| is_first_with_key(b, k0, i);
            lemma_first_unique(b, k0, g);
            assert(record_key(e0[g]) == k0);
            assert(f == g) by {
                if f < g {
                    assert(record_key(e0[f]) == record_key(b[f]));
                } else if f > g {
                    assert(record_key(e0[g]) == k0);
                }
            }
            assert(first_with_key(b, k0) == b[g]);
            match winner(db, items, k0) {
                None => {
                    assert(e0[f] == b[f]);
                    assert(e == e0);
                },
                Some(w) => {
                    if w < n {
                        assert(e0[f] == b[f]);
                        assert(e == e0);
                    } else if w == n {
                        assert(e == replace_key(e0, k0, x));
                    }
                },
            }
        } else {
            assert(f >= b.len()) by {
                if f < b.len() {
                    assert(record_key(e0[f]) == record_key(b[f]));
                }
            }
            match winner(db, items, k0) {
                None => {},
                Some(w) => {
                    if w < n {
                        assert(e0[f] == items[w]);
                        assert(e == e0);
                    } else if w == n {
                        assert(e == replace_key(e0, k0, x));
                    }
                },
            }
        }
    } else {
        assert(e == e0.push(x));
        assert(!has_key(b, k0)) by {
            if has_key(b, k0) {
                let v0 = choose|i: int| 0 <= i < b.len() && record_key(#[trigger] b[i]) == k0;
                assert(record_key(e0[v0]) == k0);
            }
        }
        assert(dead(db, items, k0));
        assert(winner(db, items, k0) matches Some(w) && w >= n) by {
            if let Some(w) = winner(db, items, k0) {
                if w < n {
                    assert(has_key(e0, record_key(items[w])));
                }
            }
        }
    }
    // the records of other keys are untouched, and their winner is not at `n`
    assert forall|p: int| 0 <= p < e0.len() && record_key(e0[p]) != k0 implies #[trigger] e[p] == e0[p]
        && (winner(db, items, record_key(e0[p])) matches Some(w) ==> w != n) by {
        lemma_winner_facts(db, items, record_key(e0[p]));
        if !has_key(e0, k0) {
            assert(e == e0.push(x));
        }
    }
    assert(e.len() >= e0.len());
    assert forall|p: int| 0 <= p < e0.len() implies record_key(#[trigger] e[p]) == record_key(e0[p]) by {
        if !has_key(e0, k0) {
            assert(e == e0.push(x));
        }
    }
    // the records of `k0` after the step
    assert forall|p: int| 0 <= p < e.len() && record_key(#[trigger] e[p]) == k0 implies (e[p] == x
        || e[p] == e0[p]) && (p >= e0.len() ==> e[p] == x) by {
        if !has_key(e0, k0) {
            assert(e == e0.push(x));
        }
    }
    assert(has_key(e, k0));
    assert forall|j: int| 0 <= j < n + 1 implies has_key(e, record_key(#[trigger] items[j])) by {
        if j < n {
            let k = record_key(items[j]);
            assert(has_key(e0, k));
            let i = choose|i: int| 0 <= i < e0.len() && record_key(#[trigger] e0[i]) == k;
            assert(record_key(e[i]) == k);
        }
    }
    assert forall|p: int|
        0 <= p < b.len() && (match winner(db, items, record_key(b[p])) {
            Some(w) => w < n + 1,
            None => true,
        }) implies #[trigger] e[p] == b[p] by {
        if record_key(b[p]) == k0 {
            assert(record_key(e0[p]) == k0);
        }
    }
    assert forall|p: int|
        0 <= p < e.len() && (winner(db, items, record_key(e[p])) matches Some(w) && w >= n + 1) implies record_stamp(#[trigger] e[p])
        <= top_stamp(db, items, record_key(e[p])) by {
        if p < e0.len() {
            assert(record_key(e0[p]) == record_key(e[p]));
        }
    }
    assert forall|p: int, q: int|
        0 <= p < e.len() && 0 <= q < e.len() && record_key(e[p]) == record_key(e[q]) && (winner(
            db,
            items,
            record_key(e[p]),
        ) matches Some(w) && w >= n + 1) implies #[trigger] e[p] == #[trigger] e[q] by {
        if p < e0.len() {
            assert(record_key(e0[p]) == record_key(e[p]));
        }
        if q < e0.len() {
            assert(record_key(e0[q]) == record_key(e[q]));
        }
        if record_key(e[p]) != k0 {
            if p < e0.len() && q < e0.len() {
                assert(e0[p] == e0[q]);
            }
        } else if p < e0.len() && q < e0.len() {
            assert(e0[p] == e0[q]);
        }
    }
    assert forall|p: int| b.len() <= p < e.len() implies {
        &&& !has_key(b, record_key(#[trigger] e[p]))
        &&& dead(db, items, record_key(e[p]))
        &&& (winner(db, items, record_key(e[p])) matches Some(w) ==> (w < n + 1 ==> e[p] == items[w]))
    } by {
        if p < e0.len() {
            assert(record_key(e0[p]) == record_key(e[p]));
        }
    }
}

proof fn lemma_replay<T: BaseModel>(db: Seq<T>, items: Seq<T>, b: Seq<T>, n: int)
    requires
        0 <= n <= items.len(),
        replay_base(db, items, b),
    ensures
        replayed(db, items, b, merge_all(b, items.take(n)), n),
    decreases n,
{
    if n == 0 {
        assert(items.take(0) =~= Seq::<T>::empty());
        lemma_replay_start(db, items, b);
    } else {
        lemma_replay(db, items, b, n - 1);
        assert(items.take(n).drop_last() =~= items.take(n - 1));
        assert(items.take(n).last() == items[n - 1]);
        lemma_replay_step(db, items, b, merge_all(b, items.take(n - 1)), n - 1);
    }
}

/// Merging the incoming records again into a starting point that meets
/// `replay_base` adds at most records of dead keys, which are deleted.
proof fn lemma_replay_all<T: BaseModel>(db: Seq<T>, items: Seq<T>, b: Seq<T>)
    requires
        replay_base(db, items, b),
    ensures
        merge_all(b, items).len() >= b.len(),
        forall|p: int| 0 <= p < b.len() ==> #[trigger] merge_all(b, items)[p] == b[p],
        forall|p: int|
            b.len() <= p < merge_all(b, items).len() ==> !has_key(b, record_key(#[trigger] merge_all(b, items)[p]))
                && (merge_all(b, items)[p]).spec_deleted_at() is Some,
{
    lemma_replay(db, items, b, items.len() as int);
    assert(items.take(items.len() as int) =~= items);
    let e = merge_all(b, items);
    assert forall|p: int| 0 <= p < b.len() implies #[trigger] e[p] == b[p] by {
        lemma_winner_facts(db, items, record_key(b[p]));
    }
    assert forall|p: int| b.len() <= p < e.len() implies !has_key(b, record_key(#[trigger] e[p]))
        && e[p].spec_deleted_at() is Some by {
        lemma_winner_facts(db, items, record_key(e[p]));
    }
}

/// The result of a merge is a starting point for merging the same records again.
proof fn lemma_merged_is_base<T: BaseModel>(db: Seq<T>, items: Seq<T>)
    ensures
        replay_base(db, items, merge_all(db, items)),
{
    let m = merge_all(db, items);
    assert forall|p: int| 0 <= p < m.len() implies (winner(db, items, record_key(#[trigger] m[p])) matches Some(w)
        ==> m[p] == items[w]) by {
        lemma_first_pass(db, items, record_key(m[p]));
    }
    assert forall|k: Seq<char>| has_key(m, k) implies record_stamp(#[trigger] first_with_key(m, k)) == top_stamp(
        db,
        items,
        k,
    ) by {
        lemma_first_pass(db, items, k);
    }
    assert forall|j: int| 0 <= j < items.len() implies has_key(m, record_key(#[trigger] items[j])) || dead(
        db,
        items,
        record_key(items[j]),
    ) by {
        law_merge_keeps_keys(db, items, record_key(items[j]));
    }
}

/// Resending a backup changes nothing: merging the same incoming records a
/// second time into the result of the first merge gives that result back.
pub proof fn law_resend_changes_nothing<T: BaseModel>(db: Seq<T>, items: Seq<T>)
    ensures
        merge_all(merge_all(db, items), items) == merge_all(db, items),
{
    let m = merge_all(db, items);
    lemma_merged_is_base(db, items);
    lemma_replay_all(db, items, m);
    let e = merge_all(m, items);
    assert(e.len() == m.len()) by {
        if e.len() > m.len() {
            let k = record_key(e[m.len() as int]);
            assert(!has_key(m, k));
            lemma_replay(db, items, m, items.len() as int);
            assert(items.take(items.len() as int) =~= items);
            assert(dead(db, items, k));
            let w = winner(db, items, k)->0;
            lemma_winner_facts(db, items, k);
            law_merge_keeps_keys(db, items, k);
            assert(record_key(items[w]) == k);
        }
    }
    assert(e =~= m);
}

/// Resending a backup changes nothing in what is stored: backing up the
/// same records again into the stored result of a backup gives that stored
/// result back. This holds when the records stored before the first backup
/// hold no deleted record, as every stored result of a backup does.
pub proof fn law_backup_resend_changes_nothing<T: BaseModel>(db: Seq<T>, items: Seq<T>)
    requires
        forall|i: int| 0 <= i < db.len() ==> (#[trigger] db[i]).spec_deleted_at() is None,
    ensures
        backup_result(Some(backup_result(Some(db), Some(items))), Some(items)) == backup_result(
            Some(db),
            Some(items),
        ),
{
    broadcast use Seq::lemma_filter_contains_rev, vstd::seq_lib::group_filter_ensures;

    let m = merge_all(db, items);
    let r = live(m);
    let pred = |x: T| x.spec_deleted_at() is None;
    assert(r == m.filter(pred));
    // every record of `r` is a live record of `m`
    assert forall|p: int| 0 <= p < r.len() implies (#[trigger] r[p]).spec_deleted_at() is None
        && exists|j: int| 0 <= j < m.len() && m[j] == r[p] by {
        assert(pred(r[p]));
        assert(r.contains(r[p]));
        assert(m.contains(r[p]));
    }
    // a key of `m` has only live records unless its winning record is deleted
    assert forall|k: Seq<char>| has_key(m, k) && !dead(db, items, k) implies forall|p: int|
        0 <= p < m.len() && record_key(#[trigger] m[p]) == k ==> m[p].spec_deleted_at() is None by {
        lemma_first_pass(db, items, k);
        lemma_winner_facts(db, items, k);
    }
    assert(replay_base(db, items, r)) by {
        assert forall|p: int| 0 <= p < r.len() implies (winner(db, items, record_key(#[trigger] r[p])) matches Some(w)
            ==> r[p] == items[w]) by {
            let j = choose|j: int| 0 <= j < m.len() && m[j] == r[p];
            lemma_first_pass(db, items, record_key(r[p]));
        }
        assert forall|k: Seq<char>| has_key(r, k) implies record_stamp(#[trigger] first_with_key(r, k))
            == top_stamp(db, items, k) by {
            let i = choose|i: int| 0 <= i < r.len() && record_key(#[trigger] r[i]) == k;
            let j = choose|j: int| 0 <= j < m.len() && m[j] == r[i];
            assert(has_key(m, k));
            lemma_first_pass(db, items, k);
            lemma_winner_facts(db, items, k);
            assert(!dead(db, items, k));
            lemma_live_first(m, k);
        }
        assert forall|j: int| 0 <= j < items.len() implies has_key(r, record_key(#[trigger] items[j])) || dead(
            db,
            items,
            record_key(items[j]),
        ) by {
            let k = record_key(items[j]);
            law_merge_keeps_keys(db, items, k);
            if !dead(db, items, k) {
                lemma_live_first(m, k);
            }
        }
    }
    lemma_replay_all(db, items, r);
    lemma_live_dead_tail(r, merge_all(r, items));
    lemma_live_of_live(r);
}

/// No key occurs twice in `s`.
pub open spec fn keys_distinct<T: BaseModel>(s: Seq<T>) -> bool {
    forall|i: int, j: int| 0 <= i < j < s.len() ==> record_key(#[trigger] s[i]) != record_key(#[trigger] s[j])
}

/// A merge never makes a key occur twice: stored records with distinct keys
/// stay so once incoming records are merged in.
pub proof fn law_merge_keeps_keys_distinct<T: BaseModel>(db: Seq<T>, items: Seq<T>)
    requires
        keys_distinct(db),
    ensures
        keys_distinct(merge_all(db, items)),
    decreases items.len(),
{
    if items.len() > 0 {
        let rest = items.drop_last();
        let x = items.last();
        let d0 = merge_all(db, rest);
        law_merge_keeps_keys_distinct(db, rest);
        lemma_replace_keys(d0, x);
        let d = merge_one(d0, x);
        if !has_key(d0, record_key(x)) {
            assert(d == d0.push(x));
            assert forall|i: int, j: int| 0 <= i < j < d.len() implies record_key(#[trigger] d[i]) != record_key(
                #[trigger] d[j],
            ) by {
                if j == d0.len() {
                    assert(d[i] == d0[i]);
                } else {
                    assert(d[i] == d0[i] && d[j] == d0[j]);
                }
            }
        } else {
            assert forall|i: int, j: int| 0 <= i < j < d.len() implies record_key(#[trigger] d[i]) != record_key(
                #[trigger] d[j],
            ) by {
                assert(record_key(d[i]) == record_key(d0[i]));
                assert(record_key(d[j]) == record_key(d0[j]));
            }
        }
    }
}

proof fn lemma_live_keeps_keys_distinct<T: BaseModel>(s: Seq<T>)
    requires
        keys_distinct(s),
    ensures
        keys_distinct(live(s)),
    decreases s.len(),
{
    broadcast use Seq::lemma_filter_push, Seq::lemma_filter_contains_rev;

    if s.len() == 0 {
        reveal(Seq::filter);
    } else {
        let rest = s.drop_last();
        let a = s.last();
        assert(s == rest.push(a));
        assert forall|i: int, j: int| 0 <= i < j < rest.len() implies record_key(#[trigger] rest[i]) != record_key(
            #[trigger] rest[j],
        ) by {
            assert(rest[i] == s[i] && rest[j] == s[j]);
        }
        lemma_live_keeps_keys_distinct(rest);
        let l = live(rest);
        if a.spec_deleted_at() is None {
            assert(live(s) == l.push(a));
            assert forall|i: int, j: int| 0 <= i < j < l.push(a).len() implies record_key(
                #[trigger] l.push(a)[i],
            ) != record_key(#[trigger] l.push(a)[j]) by {
                if j == l.len() {
                    assert(l.push(a)[i] == l[i]);
                    assert(l.contains(l[i]));
                    assert(rest.contains(l[i]));
                    let m = choose|m: int| 0 <= m < rest.len() && rest[m] == l[i];
                    assert(s[m] == rest[m]);
                    assert(s[s.len() - 1] == a);
                } else {
                    assert(l.push(a)[i] == l[i] && l.push(a)[j] == l[j]);
                }
            }
        } else {
            assert(live(s) == l);
        }
    }
}

/// What a backup stores never has a key twice, provided the stored records
/// it started from did not.
pub proof fn law_backup_keeps_keys_distinct<T: BaseModel>(stored: Option<Seq<T>>, incoming: Option<Seq<T>>)
    requires
        stored matches Some(db) ==> keys_distinct(db),
    ensures
        keys_distinct(backup_result(stored, incoming)),
{
    match stored {
        None => {},
        Some(db) => {
            if let Some(items) = incoming {
                law_merge_keeps_keys_distinct(db, items);
            }
            lemma_live_keeps_keys_distinct(merged(db, incoming));
        },
    }
}

/// Records are matched by their whole uuid, the empty text when they have
/// none, and compared by their whole last-change time, `0` when they have
/// none.
pub proof fn law_key_and_stamp<T: BaseModel>(r: T)
    ensures
        record_key(r) == match r.spec_uuid() {
            Some(u) => u,
            None => Seq::<char>::empty(),
        },
        record_stamp(r) as int == match r.spec_updated_at() {
            Some(t) => t as int,
            None => 0,
        },
{
}

/// A record whose uuid no stored record has is appended, and every stored
/// record stays as it was.
pub proof fn law_unknown_uuid_appended<T: BaseModel>(db: Seq<T>, item: T)
    requires
        forall|j: int|
            0 <= j < db.len() ==> match (#[trigger] db[j]).spec_uuid() {
                Some(u) => u,
                None => Seq::<char>::empty(),
            } != match item.spec_uuid() {
                Some(u) => u,
                None => Seq::<char>::empty(),
            },
    ensures
        merge_one(db, item) == db.push(item),
{
    assert(!has_key(db, record_key(item))) by {
        if has_key(db, record_key(item)) {
            let j = choose|j: int| 0 <= j < db.len() && record_key(#[trigger] db[j]) == record_key(item);
            assert(record_key(db[j]) != record_key(item));
        }
    }
}

/// A record at least as recent (by its whole `updated_at`, `0` when absent)
/// as the first stored record of its uuid replaces every stored record of
/// that uuid, and leaves the records of other uuids as they were.
pub proof fn law_newer_uuid_replaces<T: BaseModel>(db: Seq<T>, item: T, i: int)
    requires
        0 <= i < db.len(),
        match db[i].spec_uuid() {
            Some(u) => u,
            None => Seq::<char>::empty(),
        } == match item.spec_uuid() {
            Some(u) => u,
            None => Seq::<char>::empty(),
        },
        forall|j: int|
            0 <= j < i ==> match (#[trigger] db[j]).spec_uuid() {
                Some(u) => u,
                None => Seq::<char>::empty(),
            } != match item.spec_uuid() {
                Some(u) => u,
                None => Seq::<char>::empty(),
            },
        match item.spec_updated_at() {
            Some(t) => t as int,
            None => 0,
        } >= match db[i].spec_updated_at() {
            Some(t) => t as int,
            None => 0,
        },
    ensures
        merge_one(db, item).len() == db.len(),
        forall|p: int|
            0 <= p < db.len() ==> #[trigger] merge_one(db, item)[p] == if match db[p].spec_uuid() {
                Some(u) => u,
                None => Seq::<char>::empty(),
            } == match item.spec_uuid() {
                Some(u) => u,
                None => Seq::<char>::empty(),
            } {
                item
            } else {
                db[p]
            },
{
    let k = record_key(item);
    assert(is_first_with_key(db, k, i));
    lemma_first_unique(db, k, i);
}

/// A record older (by its whole `updated_at`, `0` when absent) than the
/// first stored record of its uuid changes nothing.
pub proof fn law_older_uuid_ignored<T: BaseModel>(db: Seq<T>, item: T, i: int)
    requires
        0 <= i < db.len(),
        match db[i].spec_uuid() {
            Some(u) => u,
            None => Seq::<char>::empty(),
        } == match item.spec_uuid() {
            Some(u) => u,
            None => Seq::<char>::empty(),
        },
        forall|j: int|
            0 <= j < i ==> match (#[trigger] db[j]).spec_uuid() {
                Some(u) => u,
                None => Seq::<char>::empty(),
            } != match item.spec_uuid() {
                Some(u) => u,
                None => Seq::<char>::empty(),
            },
        match item.spec_updated_at() {
            Some(t) => t as int,
            None => 0,
        } < match db[i].spec_updated_at() {
            Some(t) => t as int,
            None => 0,
        },
    ensures
        merge_one(db, item) == db,
{
    let k = record_key(item);
    assert(is_first_with_key(db, k, i));
    lemma_first_unique(db, k, i);
}

/// Dropping deleted records keeps exactly the records whose `deleted_at`
/// says nothing, in their order.
pub proof fn law_live_keeps_undeleted<T: BaseModel>(s: Seq<T>)
    ensures
        forall|i: int| 0 <= i < live(s).len() ==> (#[trigger] live(s)[i]).spec_deleted_at() is None,
        forall|i: int| 0 <= i < s.len() && (#[trigger] s[i]).spec_deleted_at() is None ==> live(s).contains(s[i]),
        forall|x: T| #[trigger] live(s).contains(x) ==> s.contains(x),
{
    broadcast use vstd::seq_lib::group_filter_ensures, Seq::lemma_filter_contains_rev;

    let pred = |x: T| x.spec_deleted_at() is None;
    assert(live(s) == s.filter(pred));
    assert forall|i: int| 0 <= i < s.len() && (#[trigger] s[i]).spec_deleted_at() is None implies live(s).contains(s[i]) by {
        assert(pred(s[i]));
    }
}

/// Incoming records are merged one at a time, in the order they come: the
/// merge of a batch and one more record is that record merged into the
/// merge of the batch, and an empty batch merges to the stored records.
pub proof fn law_merge_in_order<T: BaseModel>(db: Seq<T>, items: Seq<T>, x: T)
    ensures
        merge_all(db, Seq::<T>::empty()) == db,
        merge_all(db, items.push(x)) == merge_one(merge_all(db, items), x),
{
    assert(items.push(x).drop_last() =~= items);
}

/// What a backup stores in each case: nothing when the stored payload could
/// not be read; the stored records less the deleted ones when the client's
/// could not; otherwise the merge of the client's records into the stored
/// ones, less the deleted records.
pub proof fn law_backup_cases<T: BaseModel>(db: Seq<T>, items: Seq<T>, incoming: Option<Seq<T>>)
    ensures
        backup_result(None, incoming) == Seq::<T>::empty(),
        backup_result(Some(db), None) == live(db),
        backup_result(Some(db), Some(items)) == live(merge_all(db, items)),
{
}

} // verus!
