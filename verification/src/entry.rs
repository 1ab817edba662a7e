use vstd::prelude::*;

verus! {

/// A single to-do item.
///
/// `id` is assigned by the store on insertion and is never reused; `name` is
/// the user-supplied label.  `is_checked` lives in memory only: it is never
/// persisted, and every reload of the store resets it to `false`.
#[derive(Debug)]
pub struct TodoEntry {
    pub id: i64,
    pub name: String,
    pub is_checked: bool,
}

/// The mathematical picture of one entry: the id as an unbounded integer and
/// the name as its character sequence.
#[verifier::ext_equal]
pub struct EntryView {
    pub id: int,
    pub name: Seq<char>,
    pub is_checked: bool,
}

impl View for TodoEntry {
    type V = EntryView;

    open spec fn view(&self) -> EntryView {
        EntryView { id: self.id as int, name: self.name@, is_checked: self.is_checked }
    }
}

impl DeepView for TodoEntry {
    type V = EntryView;

    open spec fn deep_view(&self) -> EntryView {
        self.view()
    }
}

} // verus!
