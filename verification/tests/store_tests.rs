use todo_store::Task;
use todo_store::TodoError;
use todo_store::TodoStore;

fn task(id: i64, text: &str, completed: bool) -> Task {
    Task { id, text: String::from(text), completed }
}

#[test]
fn empty_start() {
    let store = TodoStore::new();
    assert_eq!(store.list().len(), 0);
}

#[test]
fn add_then_list() {
    let mut store = TodoStore::new();
    store.add(task(1, "water the plants", false));
    let listed = store.list();
    assert_eq!(listed.len(), 1);
    assert_eq!(listed[0].id, 1);
    assert_eq!(listed[0].text, "water the plants");
    assert!(!listed[0].completed);

    store.add(task(2, "buy milk", true));
    let listed = store.list();
    assert_eq!(listed.len(), 2);
    assert_eq!(listed[1].id, 2);
    assert_eq!(listed[1].text, "buy milk");
    assert!(listed[1].completed);
}

#[test]
fn add_accepts_duplicate_ids_and_empty_text() {
    let mut store = TodoStore::new();
    store.add(task(7, "", false));
    store.add(task(7, "", false));
    assert_eq!(store.list().len(), 2);
}

#[test]
fn toggle_flips() {
    let mut store = TodoStore::new();
    store.add(task(5, "write report", false));
    assert_eq!(store.toggle(5), Ok(()));
    assert!(store.list()[0].completed);
    assert_eq!(store.toggle(5), Ok(()));
    assert!(!store.list()[0].completed);
}

#[test]
fn toggle_affects_first_match_only() {
    let mut store = TodoStore::new();
    store.add(task(7, "first", false));
    store.add(task(7, "second", false));
    assert_eq!(store.toggle(7), Ok(()));
    let listed = store.list();
    assert!(listed[0].completed);
    assert!(!listed[1].completed);
}

#[test]
fn toggle_missing_fails() {
    let mut store = TodoStore::new();
    store.add(task(1, "first", false));
    store.add(task(2, "second", true));
    assert_eq!(store.toggle(999), Err(TodoError::NotFound));
    let listed = store.list();
    assert_eq!(listed.len(), 2);
    assert_eq!(listed[0].id, 1);
    assert_eq!(listed[0].text, "first");
    assert!(!listed[0].completed);
    assert_eq!(listed[1].id, 2);
    assert_eq!(listed[1].text, "second");
    assert!(listed[1].completed);
}

#[test]
fn toggle_on_empty_store_fails() {
    let mut store = TodoStore::new();
    assert_eq!(store.toggle(0), Err(TodoError::NotFound));
    assert_eq!(store.list().len(), 0);
}

#[test]
fn delete_removes_all_matches() {
    let mut store = TodoStore::new();
    store.add(task(7, "first twin", false));
    store.add(task(8, "bystander", true));
    store.add(task(7, "second twin", true));
    store.delete(7);
    let listed = store.list();
    assert_eq!(listed.len(), 1);
    assert_eq!(listed[0].id, 8);
    assert_eq!(listed[0].text, "bystander");
    assert!(listed[0].completed);
}

#[test]
fn delete_missing_is_noop() {
    let mut store = TodoStore::new();
    store.add(task(1, "keep me", false));
    store.delete(123);
    let listed = store.list();
    assert_eq!(listed.len(), 1);
    assert_eq!(listed[0].id, 1);
    assert_eq!(listed[0].text, "keep me");
    assert!(!listed[0].completed);
}

#[test]
fn order_preservation() {
    let mut store = TodoStore::new();
    store.add(task(1, "a", false));
    store.add(task(2, "b", false));
    store.add(task(3, "c", false));
    let listed = store.list();
    assert_eq!(listed.len(), 3);
    assert_eq!(listed[0].id, 1);
    assert_eq!(listed[1].id, 2);
    assert_eq!(listed[2].id, 3);

    store.delete(2);
    let listed = store.list();
    assert_eq!(listed.len(), 2);
    assert_eq!(listed[0].id, 1);
    assert_eq!(listed[0].text, "a");
    assert_eq!(listed[1].id, 3);
    assert_eq!(listed[1].text, "c");
}

#[test]
fn serialized_adds_lose_nothing() {
    let mut store = TodoStore::new();
    let n: i64 = 25;
    let mut i: i64 = 0;
    while i < n {
        store.add(task(i, "queued", false));
        i += 1;
    }
    let listed = store.list();
    assert_eq!(listed.len(), 25);
    let mut j: i64 = 0;
    while j < n {
        let mut seen: usize = 0;
        for t in &listed {
            if t.id == j {
                seen += 1;
            }
        }
        assert_eq!(seen, 1);
        j += 1;
    }
}

#[test]
fn not_found_message() {
    assert_eq!(TodoError::NotFound.message(), "Todo not found");
}

#[test]
fn listing_returns_a_copy() {
    let mut store = TodoStore::new();
    store.add(task(4, "original", false));
    let mut listed = store.list();
    listed[0].text = String::from("scribbled over");
    listed.clear();
    let listed_again = store.list();
    assert_eq!(listed_again.len(), 1);
    assert_eq!(listed_again[0].text, "original");
}
