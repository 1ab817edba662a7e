use vstd::prelude::*;
use crate::entry::{EntryView, TodoEntry};
use crate::errors::StoreError;
use crate::store::{insert_err, insert_ok, inserted, normalized, removed, Store, StoreView};

verus! {

/// The abstract state of the view model: the entries last shown and the
/// pending input buffer.
#[verifier::ext_equal]
pub struct ViewModelView {
    pub entries: Seq<EntryView>,
    pub pending: Seq<char>,
}

/// The view after a full reload from a store: the previous entries are
/// discarded and replaced by a fresh scan; the pending buffer is untouched.
pub open spec fn loaded(v: ViewModelView, s: StoreView) -> ViewModelView {
    ViewModelView { entries: normalized(s.rows), pending: v.pending }
}

/// The in-memory face of the store: an ordered snapshot of the entries for
/// rendering, plus the text the user has typed but not yet committed.
///
/// The snapshot is a point in time, not a live view.  Mutations through
/// [`ViewModel::submit`] and [`ViewModel::remove`] touch the store only; the
/// snapshot lags until the next full [`ViewModel::load`].
pub struct ViewModel {
    entries: Vec<TodoEntry>,
    pending: String,
}

impl View for ViewModel {
    type V = ViewModelView;

    closed spec fn view(&self) -> ViewModelView {
        ViewModelView { entries: self.entries.deep_view(), pending: self.pending@ }
    }
}

impl ViewModel {
    /// An empty view: nothing shown, nothing typed.
    pub fn new() -> (v: ViewModel)
        ensures
            v@ == (ViewModelView {
                entries: Seq::<EntryView>::empty(),
                pending: Seq::<char>::empty(),
            }),
    {
        let v = ViewModel { entries: Vec::new(), pending: String::new() };
        proof {
            assert(v@ =~= (ViewModelView {
                entries: Seq::<EntryView>::empty(),
                pending: Seq::<char>::empty(),
            }));
        }
        v
    }

    /// The entries as last loaded, in scan order, for rendering.
    pub fn entries(&self) -> (r: &Vec<TodoEntry>)
        ensures
            r.deep_view() == self@.entries,
    {
        &self.entries
    }

    /// The pending input buffer.
    pub fn pending(&self) -> (r: &String)
        ensures
            r@ == self@.pending,
    {
        &self.pending
    }

    /// Replaces the pending input buffer, as typing into the input box does.
    pub fn set_pending(&mut self, text: String)
        ensures
            final(self)@ == (ViewModelView { pending: text@, ..old(self)@ }),
    {
        self.pending = text;
        proof {
            assert(self@ =~= (ViewModelView { pending: self.pending@, ..old(self)@ }));
        }
    }

    /// Reloads the shown entries with a full scan of the store.  The old
    /// contents are discarded, never appended to, so repeated loads cannot
    /// accumulate duplicates.  A failed scan leaves the view untouched.
    pub fn load(&mut self, store: &Store) -> (r: Result<(), StoreError>)
        ensures
            store@.schema_ready ==> r is Ok && final(self)@ == loaded(old(self)@, store@),
            !store@.schema_ready ==> r == Err::<(), StoreError>(StoreError::QueryFailed)
                && *final(self) == *old(self),
    {
        match store.list_all() {
            Ok(rows) => {
                self.entries = rows;
                proof {
                    assert(self@ =~= loaded(old(self)@, store@));
                }
                Ok(())
            },
            Err(e) => Err(e),
        }
    }

    /// Commits the pending buffer: a non-blank text is inserted into the
    /// store and the buffer is cleared.  A blank buffer is rejected as
    /// invalid input without touching the store — no row appears.  The shown
    /// entries lag either way until the next load.  On failure nothing
    /// changes at all.
    pub fn submit(&mut self, store: &mut Store) -> (r: Result<(), StoreError>)
        requires
            old(store)@.wf(),
        ensures
            final(store)@.wf(),
            insert_ok(old(store)@, old(self)@.pending) ==> r is Ok && final(store)@ == inserted(
                old(store)@,
                old(self)@.pending,
            ) && final(self)@ == (ViewModelView {
                pending: Seq::<char>::empty(),
                ..old(self)@
            }),
            !insert_ok(old(store)@, old(self)@.pending) ==> r == Err::<(), StoreError>(
                insert_err(old(store)@, old(self)@.pending),
            ) && *final(self) == *old(self) && *final(store) == *old(store),
    {
        let text = self.pending.clone();
        match store.insert(text) {
            Ok(()) => {
                self.pending = String::new();
                proof {
                    assert(self@ =~= (ViewModelView {
                        pending: Seq::<char>::empty(),
                        ..old(self)@
                    }));
                }
                Ok(())
            },
            Err(e) => Err(e),
        }
    }

    /// Removes the entry with the given id from the store.  A missing id
    /// succeeds as a no-op.  The shown entries lag until the next load; the
    /// view model itself never changes here.
    pub fn remove(&mut self, store: &mut Store, id: i64) -> (r: Result<(), StoreError>)
        requires
            old(store)@.wf(),
        ensures
            final(store)@.wf(),
            *final(self) == *old(self),
            old(store)@.schema_ready ==> r is Ok && final(store)@ == removed(
                old(store)@,
                id as int,
            ),
            !old(store)@.schema_ready ==> r == Err::<(), StoreError>(StoreError::WriteFailed)
                && *final(store) == *old(store),
    {
        store.delete(id)
    }
}

/// Reloading never accumulates: a second load from the same store leaves the
/// view exactly where the first left it, and under a well-formed store the
/// loaded list shows each persisted row exactly once — every id is unique.
pub proof fn lemma_load_no_accumulation(v: ViewModelView, s: StoreView)
    requires
        s.wf(),
    ensures
        loaded(loaded(v, s), s) == loaded(v, s),
        loaded(v, s).entries.len() == s.rows.len(),
        forall|i: int, j: int|
            0 <= i < j < loaded(v, s).entries.len() ==> loaded(v, s).entries[i].id != loaded(
                v,
                s,
            ).entries[j].id,
{
    assert(loaded(loaded(v, s), s) =~= loaded(v, s));
    assert forall|i: int, j: int|
        0 <= i < j < loaded(v, s).entries.len() implies loaded(v, s).entries[i].id != loaded(
        v,
        s,
    ).entries[j].id by {
        assert(loaded(v, s).entries[i].id == s.rows[i].id);
        assert(loaded(v, s).entries[j].id == s.rows[j].id);
    }
}

} // verus!
