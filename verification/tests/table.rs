use hosteld::order::{sort_stably, Ranked};
use hosteld::messages::Conversation;
use hosteld::table::Table;

#[test]
fn a_table_holds_the_last_value() {
    let mut t: Table<u32> = Table::new();
    assert!(!t.has("a"));
    t.set("a", 1);
    t.set("b", 2);
    t.set("a", 3);
    assert_eq!(t.get("a"), Some(&3));
    assert_eq!(t.get_or("c", 9), 9);
    assert_eq!(t.total(), 5);
    t.remove("a");
    t.remove("none");
    assert_eq!(t.get("a"), None);
    assert_eq!(t.total(), 2);
}

fn line(id: &str, online: bool, last: u64) -> Conversation {
    Conversation {
        contact_id: id.to_string(),
        name: id.to_string(),
        preview: String::new(),
        online,
        unread: 0,
        last,
    }
}

#[test]
fn sorting_keeps_equals_in_order() {
    let mut v = vec![line("a", false, 1), line("b", true, 0), line("c", false, 1), line("d", false, 5)];
    sort_stably(&mut v);
    let ids: Vec<&str> = v.iter().map(|c| c.contact_id.as_str()).collect();
    assert_eq!(ids, vec!["b", "d", "a", "c"]);
    assert!(v[0].goes_before(&v[1]));
    assert!(!v[2].goes_before(&v[3]));
}
