use todo_store::entry::TodoEntry;
use todo_store::errors::StoreError;
use todo_store::store::Store;
use todo_store::view::ViewModel;

fn ready() -> (Store, ViewModel) {
    let mut s = Store::open();
    assert_eq!(s.ensure_schema(), Ok(()));
    (s, ViewModel::new())
}

fn submit_text(vm: &mut ViewModel, s: &mut Store, text: &str) -> Result<(), StoreError> {
    vm.set_pending(text.to_string());
    vm.submit(s)
}

#[test]
fn a_new_view_is_empty() {
    let vm = ViewModel::new();
    assert!(vm.entries().is_empty());
    assert!(vm.pending().is_empty());
}

#[test]
fn blank_submissions_leave_no_row_and_report_invalid_input() {
    let (mut s, mut vm) = ready();
    assert_eq!(submit_text(&mut vm, &mut s, ""), Err(StoreError::InvalidInput));
    assert_eq!(submit_text(&mut vm, &mut s, "   "), Err(StoreError::InvalidInput));
    assert_eq!(s.list_all().unwrap().len(), 0);
    // a failed submission leaves the buffer as it was
    assert_eq!(vm.pending(), "   ");
}

#[test]
fn a_successful_submission_clears_the_buffer() {
    let (mut s, mut vm) = ready();
    assert_eq!(submit_text(&mut vm, &mut s, "task A"), Ok(()));
    assert!(vm.pending().is_empty());
}

#[test]
fn mutations_lag_until_the_next_load() {
    let (mut s, mut vm) = ready();
    assert_eq!(submit_text(&mut vm, &mut s, "task A"), Ok(()));
    assert!(vm.entries().is_empty());
    assert_eq!(vm.load(&s), Ok(()));
    assert_eq!(vm.entries().len(), 1);
    let id = vm.entries()[0].id;
    assert_eq!(vm.remove(&mut s, id), Ok(()));
    assert_eq!(vm.entries().len(), 1);
    assert_eq!(vm.load(&s), Ok(()));
    assert!(vm.entries().is_empty());
}

#[test]
fn reloading_twice_accumulates_nothing() {
    let (mut s, mut vm) = ready();
    assert_eq!(submit_text(&mut vm, &mut s, "one"), Ok(()));
    assert_eq!(submit_text(&mut vm, &mut s, "two"), Ok(()));
    assert_eq!(vm.load(&s), Ok(()));
    assert_eq!(vm.load(&s), Ok(()));
    let entries = vm.entries();
    assert_eq!(entries.len(), 2);
    assert_ne!(entries[0].id, entries[1].id);
}

#[test]
fn loading_from_a_store_without_schema_fails_and_changes_nothing() {
    let s = Store::open();
    let mut vm = ViewModel::new();
    assert_eq!(vm.load(&s), Err(StoreError::QueryFailed));
    assert!(vm.entries().is_empty());
}

#[test]
fn end_to_end_two_tasks_then_one() {
    let (mut s, mut vm) = ready();
    assert_eq!(submit_text(&mut vm, &mut s, "task A"), Ok(()));
    assert_eq!(submit_text(&mut vm, &mut s, "task B"), Ok(()));
    assert_eq!(vm.load(&s), Ok(()));
    let names: Vec<String> = vm.entries().iter().map(|e| e.name.clone()).collect();
    assert_eq!(names, vec!["task A".to_string(), "task B".to_string()]);
    let id_a = vm.entries()[0].id;
    let id_b = vm.entries()[1].id;
    assert_ne!(id_a, id_b);
    assert_eq!(vm.remove(&mut s, id_a), Ok(()));
    assert_eq!(vm.load(&s), Ok(()));
    assert_eq!(vm.entries().len(), 1);
    assert_eq!(vm.entries()[0].name, "task B");
    assert_eq!(vm.entries()[0].id, id_b);
}

#[test]
fn every_reload_resets_checked_flags() {
    let s = Store::from_rows(vec![TodoEntry {
        id: 5,
        name: "ticked on file, somehow".to_string(),
        is_checked: true,
    }])
    .unwrap();
    let mut vm = ViewModel::new();
    assert_eq!(vm.load(&s), Ok(()));
    assert!(!vm.entries()[0].is_checked);
}
