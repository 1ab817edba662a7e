use vstd::prelude::*;
use crate::entry::{EntryView, TodoEntry};
use crate::errors::StoreError;
use crate::text::{blank, is_blank};

verus! {

/// The abstract state of the store: the rows of the `todo` table in scan
/// order, the id the next insert will assign, and whether the schema step
/// has run on this handle.
#[verifier::ext_equal]
pub struct StoreView {
    pub rows: Seq<EntryView>,
    pub next_id: int,
    pub schema_ready: bool,
}

impl StoreView {
    /// Some row carries `id`.
    pub open spec fn has_id(self, id: int) -> bool {
        exists|i: int| 0 <= i < self.rows.len() && self.rows[i].id == id
    }

    /// Well-formedness: ids are positive, strictly increasing in scan order
    /// (hence unique), all below the id of the next insert, and no stored row
    /// carries the in-memory-only checked flag.
    pub open spec fn wf(self) -> bool {
        &&& 1 <= self.next_id <= i64::MAX
        &&& (forall|i: int|
            0 <= i < self.rows.len() ==> 1 <= (#[trigger] self.rows[i]).id < self.next_id)
        &&& (forall|i: int, j: int|
            0 <= i < j < self.rows.len() ==> self.rows[i].id < self.rows[j].id)
        &&& (forall|i: int| 0 <= i < self.rows.len() ==> !(#[trigger] self.rows[i]).is_checked)
    }
}

/// The state after the schema step: the same store with its schema in place.
pub open spec fn with_schema(s: StoreView) -> StoreView {
    StoreView { schema_ready: true, ..s }
}

/// Rows as a scan returns them: every row with the checked flag cleared.
pub open spec fn normalized(rows: Seq<EntryView>) -> Seq<EntryView> {
    rows.map_values(|e: EntryView| EntryView { is_checked: false, ..e })
}

/// An insert succeeds exactly when the name is not blank, the schema step has
/// run, and an unused id is still available.
pub open spec fn insert_ok(s: StoreView, name: Seq<char>) -> bool {
    &&& !is_blank(name)
    &&& s.schema_ready
    &&& s.next_id < i64::MAX
}

/// The error a failing insert reports: blank names are rejected as invalid
/// input before anything touches the table; everything else is a failed write.
pub open spec fn insert_err(s: StoreView, name: Seq<char>) -> StoreError {
    if is_blank(name) {
        StoreError::InvalidInput
    } else {
        StoreError::WriteFailed
    }
}

/// The state after a successful insert: one appended row bearing the next id.
pub open spec fn inserted(s: StoreView, name: Seq<char>) -> StoreView {
    StoreView {
        rows: s.rows.push(EntryView { id: s.next_id, name: name, is_checked: false }),
        next_id: s.next_id + 1,
        schema_ready: s.schema_ready,
    }
}

/// The predicate a delete keeps rows by: every row whose id differs.
pub open spec fn keep_pred(id: int) -> spec_fn(EntryView) -> bool {
    |e: EntryView| e.id != id
}

/// The state after a delete: rows with `id` are gone, everything else stays,
/// in order.  The next id never moves backwards, so ids are not reused.
pub open spec fn removed(s: StoreView, id: int) -> StoreView {
    StoreView { rows: s.rows.filter(keep_pred(id)), ..s }
}

/// A snapshot of a pre-existing table is acceptable when its ids are
/// positive, strictly increasing in scan order, and leave room for a next id.
pub open spec fn valid_snapshot(rows: Seq<EntryView>) -> bool {
    &&& (forall|i: int| 0 <= i < rows.len() ==> 1 <= (#[trigger] rows[i]).id < i64::MAX)
    &&& (forall|i: int| 0 <= i < rows.len() - 1 ==> (#[trigger] rows[i]).id < rows[i + 1].id)
}

/// The id the store assigns next, after loading a snapshot: one past the
/// highest id on file, or 1 over an empty table.
pub open spec fn next_id_of(rows: Seq<EntryView>) -> int {
    if rows.len() == 0 {
        1
    } else {
        rows.last().id + 1
    }
}

/// One open handle on the to-do table.
///
/// The struct holds the table contents themselves; the durable file and the
/// engine that scans it live outside the crate, which hands the rows in and
/// out as plain values ([`Store::from_rows`], [`Store::list_all`]).
#[derive(Debug)]
pub struct Store {
    rows: Vec<TodoEntry>,
    next_id: i64,
    schema_ready: bool,
}

impl View for Store {
    type V = StoreView;

    closed spec fn view(&self) -> StoreView {
        StoreView {
            rows: self.rows.deep_view(),
            next_id: self.next_id as int,
            schema_ready: self.schema_ready,
        }
    }
}

impl Store {
    /// Opens a fresh, empty store, as over a newly created database file.
    /// The schema step has not run yet.
    pub fn open() -> (s: Store)
        ensures
            s@ == (StoreView { rows: Seq::<EntryView>::empty(), next_id: 1, schema_ready: false }),
            s@.wf(),
    {
        let s = Store { rows: Vec::new(), next_id: 1, schema_ready: false };
        proof {
            assert(s@.rows =~= Seq::<EntryView>::empty());
            assert(s@ =~= (StoreView {
                rows: Seq::<EntryView>::empty(),
                next_id: 1,
                schema_ready: false,
            }));
        }
        s
    }

    /// Opens a store over the rows scanned from a pre-existing database file,
    /// handed in by the caller in scan order.  A snapshot that cannot have
    /// come from the fixed schema is rejected whole.  The checked flag is an
    /// in-memory affair and comes up cleared regardless of the input; the
    /// table evidently exists, so the schema counts as ensured.
    #[verifier::rlimit(50)]
    pub fn from_rows(rows: Vec<TodoEntry>) -> (r: Result<Store, StoreError>)
        ensures
            r is Ok <==> valid_snapshot(rows.deep_view()),
            r is Ok ==> (r->Ok_0)@ == (StoreView {
                rows: normalized(rows.deep_view()),
                next_id: next_id_of(rows.deep_view()),
                schema_ready: true,
            }) && (r->Ok_0)@.wf(),
            r is Err ==> r == Err::<Store, StoreError>(StoreError::SchemaError),
    {
        let ghost dv = rows.deep_view();
        let n = rows.len();
        let mut i: usize = 0;
        while i < n
            invariant
                i <= n,
                n == rows.len(),
                dv == rows.deep_view(),
                forall|j: int| 0 <= j < i ==> 1 <= (#[trigger] dv[j]).id < i64::MAX,
                forall|j: int| 0 <= j < i - 1 ==> (#[trigger] dv[j]).id < dv[j + 1].id,
            decreases n - i,
        {
            let e = &rows[i];
            if e.id < 1 || e.id == i64::MAX {
                proof {
                    assert(!(1 <= dv[i as int].id < i64::MAX));
                }
                return Err(StoreError::SchemaError);
            }
            if i > 0 {
                let p = &rows[i - 1];
                if p.id >= e.id {
                    proof {
                        assert(dv[i - 1].id >= dv[i as int].id);
                    }
                    return Err(StoreError::SchemaError);
                }
            }
            i += 1;
        }
        let mut out: Vec<TodoEntry> = Vec::new();
        let mut k: usize = 0;
        while k < n
            invariant
                k <= n,
                n == rows.len(),
                dv == rows.deep_view(),
                out.deep_view() == normalized(dv).take(k as int),
            decreases n - k,
        {
            let e = &rows[k];
            let row = TodoEntry { id: e.id, name: e.name.clone(), is_checked: false };
            let ghost row0 = row;
            let ghost old_out = out;
            proof {
                assert(row.deep_view() == (EntryView { is_checked: false, ..dv[k as int] }));
            }
            out.push(row);
            proof {
                assert(old_out.deep_view().len() == k);
                assert(out@ == old_out@.push(row0));
                assert(out.deep_view() =~= normalized(dv).take(k as int + 1));
            }
            k += 1;
        }
        let next_id = if n == 0 {
            1
        } else {
            let last = &rows[n - 1];
            last.id + 1
        };
        let s = Store { rows: out, next_id, schema_ready: true };
        proof {
            assert(normalized(dv).take(n as int) =~= normalized(dv));
            assert(s@ =~= (StoreView {
                rows: normalized(dv),
                next_id: next_id_of(dv),
                schema_ready: true,
            }));
            lemma_adjacent_sorted(s@.rows);
            assert forall|j: int|
                0 <= j < s@.rows.len() implies 1 <= (#[trigger] s@.rows[j]).id < s@.next_id by {
                assert(s@.rows[j].id == dv[j].id);
                if j < s@.rows.len() - 1 {
                    assert(s@.rows[j].id < s@.rows[s@.rows.len() - 1].id);
                }
                assert(s@.rows[s@.rows.len() - 1].id == dv[dv.len() - 1].id) by {
                    assert(s@.rows.len() == dv.len());
                }
            }
        }
        Ok(s)
    }

    /// Creates the `todo` table if it is absent.  Idempotent: the rows and
    /// the next id are untouched, however often this runs.
    pub fn ensure_schema(&mut self) -> (r: Result<(), StoreError>)
        ensures
            r is Ok,
            final(self)@ == with_schema(old(self)@),
    {
        self.schema_ready = true;
        proof {
            assert(self@ =~= with_schema(old(self)@));
        }
        Ok(())
    }

    /// Decides well-formedness of the handle, so that unverified callers can
    /// check it before relying on it.
    pub fn is_well_formed(&self) -> (b: bool)
        ensures
            b == self@.wf(),
    {
        if self.next_id < 1 {
            return false;
        }
        let n = self.rows.len();
        let mut i: usize = 0;
        while i < n
            invariant
                i <= n,
                n == self.rows.len(),
                forall|j: int|
                    0 <= j < i ==> 1 <= (#[trigger] self@.rows[j]).id < self.next_id as int,
                forall|j: int| 0 <= j < i - 1 ==> (#[trigger] self@.rows[j]).id < self@.rows[j + 1].id,
                forall|j: int| 0 <= j < i ==> !(#[trigger] self@.rows[j]).is_checked,
            decreases n - i,
        {
            let e = &self.rows[i];
            if e.id < 1 || e.id >= self.next_id || e.is_checked {
                proof {
                    // row i is the witness that breaks well-formedness
                    assert(!(1 <= self@.rows[i as int].id < self@.next_id)
                        || self@.rows[i as int].is_checked);
                }
                return false;
            }
            if i > 0 {
                let p = &self.rows[i - 1];
                if p.id >= e.id {
                    proof {
                        // the pair (i - 1, i) is the witness against strict order
                        assert(self@.rows[i - 1].id >= self@.rows[i as int].id);
                    }
                    return false;
                }
            }
            i += 1;
        }
        proof {
            lemma_adjacent_sorted(self@.rows);
        }
        true
    }

    /// Appends a row with a store-assigned id.  Identical names may coexist
    /// as distinct rows; blank names never reach the table and are reported
    /// as invalid input.  A failing insert leaves the store untouched.
    pub fn insert(&mut self, name: String) -> (r: Result<(), StoreError>)
        requires
            old(self)@.wf(),
        ensures
            final(self)@.wf(),
            insert_ok(old(self)@, name@) ==> r is Ok && final(self)@ == inserted(
                old(self)@,
                name@,
            ),
            !insert_ok(old(self)@, name@) ==> r == Err::<(), StoreError>(
                insert_err(old(self)@, name@),
            ) && *final(self) == *old(self),
    {
        if blank(name.as_str()) {
            return Err(StoreError::InvalidInput);
        }
        if !self.schema_ready {
            return Err(StoreError::WriteFailed);
        }
        if self.next_id == i64::MAX {
            return Err(StoreError::WriteFailed);
        }
        let ghost nv = name@;
        let id = self.next_id;
        self.next_id = id + 1;
        self.rows.push(TodoEntry { id, name, is_checked: false });
        proof {
            let target = inserted(old(self)@, nv);
            assert(self@.rows =~= target.rows);
            assert(self@ =~= target);
            assert forall|i: int, j: int|
                0 <= i < j < self@.rows.len() implies self@.rows[i].id < self@.rows[j].id by {
                if j < self@.rows.len() - 1 {
                    assert(old(self)@.rows[i].id < old(self)@.rows[j].id);
                }
            }
        }
        Ok(())
    }

    /// Runs a full scan: every row, in order, with the checked flag cleared
    /// unconditionally.  Before the schema step the scan fails.
    pub fn list_all(&self) -> (r: Result<Vec<TodoEntry>, StoreError>)
        ensures
            self@.schema_ready ==> r is Ok && (r->Ok_0).deep_view() == normalized(self@.rows),
            !self@.schema_ready ==> r == Err::<Vec<TodoEntry>, StoreError>(StoreError::QueryFailed),
    {
        if !self.schema_ready {
            return Err(StoreError::QueryFailed);
        }
        let n = self.rows.len();
        let mut out: Vec<TodoEntry> = Vec::new();
        let mut i: usize = 0;
        while i < n
            invariant
                i <= n,
                n == self.rows.len(),
                out.deep_view() == normalized(self@.rows).take(i as int),
            decreases n - i,
        {
            let e = &self.rows[i];
            let row = TodoEntry { id: e.id, name: e.name.clone(), is_checked: false };
            let ghost row0 = row;
            let ghost old_out = out;
            proof {
                assert(row.deep_view() == (EntryView {
                    is_checked: false,
                    ..self@.rows[i as int]
                }));
            }
            out.push(row);
            proof {
                let post = out.deep_view();
                let tgt = normalized(self@.rows).take(i as int + 1);
                assert(old_out.deep_view().len() == i);
                assert(out@ == old_out@.push(row0));
                assert(post.len() == i + 1);
                assert(tgt.len() == i + 1);
                assert forall|j: int| 0 <= j < i + 1 implies post[j] == tgt[j] by {
                    assert(post[j] == out@[j].deep_view());
                    if j < i {
                        assert(out@[j] == old_out@[j]);
                    } else {
                        assert(out@[j] == row0);
                    }
                }
                assert(post =~= tgt);
            }
            i += 1;
        }
        proof {
            assert(normalized(self@.rows).take(n as int) =~= normalized(self@.rows));
        }
        Ok(out)
    }

    /// Removes the row with the given id if one is present.  A missing id is
    /// no failure: the delete is a deliberate no-op then.  Ids of deleted
    /// rows are never handed out again, since the next id does not move.
    pub fn delete(&mut self, id: i64) -> (r: Result<(), StoreError>)
        requires
            old(self)@.wf(),
        ensures
            final(self)@.wf(),
            old(self)@.schema_ready ==> r is Ok && final(self)@ == removed(old(self)@, id as int),
            !old(self)@.schema_ready ==> r == Err::<(), StoreError>(StoreError::WriteFailed)
                && *final(self) == *old(self),
    {
        if !self.schema_ready {
            return Err(StoreError::WriteFailed);
        }
        let n = self.rows.len();
        let mut i: usize = 0;
        while i < n
            invariant
                i <= n,
                n == self.rows.len(),
                *self == *old(self),
                old(self)@.wf(),
                old(self)@.schema_ready,
                forall|j: int| 0 <= j < i ==> (#[trigger] self@.rows[j]).id != id as int,
            decreases n - i,
        {
            let e = &self.rows[i];
            if e.id == id {
                let ghost pre = self@;
                let ghost k = i as int;
                self.rows.remove(i);
                proof {
                    assert forall|j: int|
                        0 <= j < pre.rows.len() && j != k implies (#[trigger] pre.rows[j]).id
                        != id as int by {
                        if j > k {
                            assert(pre.rows[k].id < pre.rows[j].id);
                        }
                    }
                    assert(self@.rows =~= pre.rows.remove(k));
                    lemma_remove_unique_is_filter(pre.rows, k, id as int);
                    assert(self@ =~= removed(pre, id as int));
                    assert forall|a: int, b: int|
                        0 <= a < b < self@.rows.len() implies self@.rows[a].id
                        < self@.rows[b].id by {
                        let a0 = if a < k { a } else { a + 1 };
                        let b0 = if b < k { b } else { b + 1 };
                        assert(self@.rows[a] == pre.rows[a0]);
                        assert(self@.rows[b] == pre.rows[b0]);
                    }
                }
                return Ok(());
            }
            i += 1;
        }
        proof {
            lemma_filter_all_keep(self@.rows, keep_pred(id as int));
            assert(self@ =~= removed(self@, id as int));
        }
        Ok(())
    }
}

/// Under a well-formed store a scan returns the rows exactly as stored:
/// clearing checked flags that are already clear changes nothing.
pub proof fn lemma_scan_of_wf_is_exact(s: StoreView)
    requires
        s.wf(),
    ensures
        normalized(s.rows) == s.rows,
{
    assert forall|i: int| 0 <= i < s.rows.len() implies normalized(s.rows)[i] == s.rows[i] by {
        assert(!s.rows[i].is_checked);
    }
    assert(normalized(s.rows) =~= s.rows);
}

/// Ensuring the schema is idempotent: running the schema step on a store
/// that already went through it changes nothing, so any number of runs ends
/// exactly where one run ends.
pub proof fn lemma_ensure_schema_idempotent(s: StoreView)
    ensures
        with_schema(with_schema(s)) == with_schema(s),
{
    assert(with_schema(with_schema(s)) =~= with_schema(s));
}

/// Round trip of an insert: a successful insert appends exactly one row; it
/// bears the next id, which no existing row carries, and the inserted name;
/// every other row stays as it was, and ids remain pairwise distinct, so a
/// scan after the insert shows the new entry exactly once.
pub proof fn lemma_insert_round_trip(s: StoreView, name: Seq<char>)
    requires
        s.wf(),
        insert_ok(s, name),
    ensures
        inserted(s, name).rows.len() == s.rows.len() + 1,
        inserted(s, name).rows.last().id == s.next_id,
        inserted(s, name).rows.last().name == name,
        !s.has_id(s.next_id),
        forall|i: int| 0 <= i < s.rows.len() ==> inserted(s, name).rows[i] == s.rows[i],
        forall|i: int, j: int|
            0 <= i < j < inserted(s, name).rows.len() ==> inserted(s, name).rows[i].id
                != inserted(s, name).rows[j].id,
{
    let t = inserted(s, name);
    assert forall|i: int, j: int| 0 <= i < j < t.rows.len() implies t.rows[i].id
        != t.rows[j].id by {
        if j < t.rows.len() - 1 {
            assert(s.rows[i].id < s.rows[j].id);
        } else {
            assert(t.rows[i] == s.rows[i]);
        }
    }
}

/// Deleting an id that no row carries is a no-op: the store, and with it
/// every later scan, is left exactly as it was.
pub proof fn lemma_delete_missing_is_noop(s: StoreView, id: int)
    requires
        !s.has_id(id),
    ensures
        removed(s, id) == s,
{
    assert forall|i: int| 0 <= i < s.rows.len() implies keep_pred(id)(#[trigger] s.rows[i]) by {
        assert(!(s.rows[i].id == id));
    }
    lemma_filter_all_keep(s.rows, keep_pred(id));
    assert(removed(s, id) =~= s);
}

/// Two consecutive inserts, even of the same name, assign distinct ids, and
/// both rows are present afterwards, each under its own id.
pub proof fn lemma_insert_twice_distinct_ids(s: StoreView, n1: Seq<char>, n2: Seq<char>)
    requires
        s.wf(),
        insert_ok(s, n1),
        insert_ok(inserted(s, n1), n2),
    ensures
        ({
            let t2 = inserted(inserted(s, n1), n2);
            let len = t2.rows.len();
            &&& s.next_id != inserted(s, n1).next_id
            &&& t2.rows[len - 2].id == s.next_id
            &&& t2.rows[len - 1].id == inserted(s, n1).next_id
            &&& t2.rows[len - 2].id != t2.rows[len - 1].id
            &&& t2.rows[len - 2].name == n1
            &&& t2.rows[len - 1].name == n2
            &&& t2.has_id(s.next_id)
            &&& t2.has_id(inserted(s, n1).next_id)
        }),
{
    let t1 = inserted(s, n1);
    let t2 = inserted(t1, n2);
    let len = t2.rows.len();
    assert(t2.rows[len - 2] == t1.rows[len - 2]);
    assert(t2.has_id(s.next_id)) by {
        assert(t2.rows[len - 2].id == s.next_id);
    }
    assert(t2.has_id(t1.next_id)) by {
        assert(t2.rows[len - 1].id == t1.next_id);
    }
}

/// A filter that keeps every element leaves the sequence as it is.
proof fn lemma_filter_all_keep<A>(s: Seq<A>, pred: spec_fn(A) -> bool)
    requires
        forall|i: int| 0 <= i < s.len() ==> pred(#[trigger] s[i]),
    ensures
        s.filter(pred) == s,
    decreases s.len(),
{
    reveal(Seq::filter);
    if s.len() == 0 {
        assert(s.filter(pred) =~= s);
    } else {
        assert forall|i: int| 0 <= i < s.drop_last().len() implies pred(
            #[trigger] s.drop_last()[i],
        ) by {
            assert(s.drop_last()[i] == s[i]);
        }
        lemma_filter_all_keep(s.drop_last(), pred);
        assert(s.drop_last().push(s.last()) =~= s);
    }
}

/// A filter that drops the sole element leaves nothing.
proof fn lemma_filter_single_out<A>(s: Seq<A>, pred: spec_fn(A) -> bool)
    requires
        s.len() == 1,
        !pred(s[0]),
    ensures
        s.filter(pred) == Seq::<A>::empty(),
{
    reveal_with_fuel(Seq::filter, 2);
    assert(s.drop_last() =~= Seq::<A>::empty());
    assert(s.last() == s[0]);
}

/// Removing the one row that carries `id` is the same as filtering `id` out.
proof fn lemma_remove_unique_is_filter(s: Seq<EntryView>, k: int, id: int)
    requires
        0 <= k < s.len(),
        s[k].id == id,
        forall|i: int| 0 <= i < s.len() && i != k ==> (#[trigger] s[i]).id != id,
    ensures
        s.remove(k) == s.filter(keep_pred(id)),
{
    let pred = keep_pred(id);
    let a = s.subrange(0, k);
    let b = s.subrange(k, k + 1);
    let c = s.subrange(k + 1, s.len() as int);
    assert(s =~= (a + b) + c);
    Seq::filter_distributes_over_add(a + b, c, pred);
    Seq::filter_distributes_over_add(a, b, pred);
    assert forall|i: int| 0 <= i < a.len() implies pred(#[trigger] a[i]) by {
        assert(a[i] == s[i]);
    }
    assert forall|i: int| 0 <= i < c.len() implies pred(#[trigger] c[i]) by {
        assert(c[i] == s[k + 1 + i]);
    }
    lemma_filter_all_keep(a, pred);
    lemma_filter_all_keep(c, pred);
    assert(b[0] == s[k]);
    lemma_filter_single_out(b, pred);
    assert(s.filter(pred) == (a.filter(pred) + b.filter(pred)) + c.filter(pred));
    assert(a.filter(pred) + b.filter(pred) =~= a);
    assert(a.filter(pred) + b.filter(pred) == a);
    assert(c.filter(pred) == c);
    assert(s.filter(pred) == a + c);
    assert(s.remove(k) =~= a + c);
}

/// Strict order of adjacent ids extends to every pair of positions.
proof fn lemma_adjacent_sorted_pair(s: Seq<EntryView>, i: int, j: int)
    requires
        forall|k: int| 0 <= k < s.len() - 1 ==> (#[trigger] s[k]).id < s[k + 1].id,
        0 <= i < j < s.len(),
    ensures
        s[i].id < s[j].id,
    decreases j - i,
{
    if j > i + 1 {
        lemma_adjacent_sorted_pair(s, i, j - 1);
    }
}

proof fn lemma_adjacent_sorted(s: Seq<EntryView>)
    requires
        forall|k: int| 0 <= k < s.len() - 1 ==> (#[trigger] s[k]).id < s[k + 1].id,
    ensures
        forall|i: int, j: int| 0 <= i < j < s.len() ==> s[i].id < s[j].id,
{
    assert forall|i: int, j: int| 0 <= i < j < s.len() implies s[i].id < s[j].id by {
        lemma_adjacent_sorted_pair(s, i, j);
    }
}

} // verus!
