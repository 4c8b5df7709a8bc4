use hosteld::channels::{
    channel_is_open, delete_channel, display_name, effective_channel, ensure_channel,
    merge_channels, merge_differs, name_or, new_channel, text_channel_is_deletable,
    voice_channel_is_deletable, Channel,
};

const DAY: u64 = 86_400;

fn open(id: &str, name: &str) -> Channel {
    Channel {
        channel_id: id.to_string(),
        name: name.to_string(),
        created_at: 1,
        created_by: [0u8; 32],
        deleted: false,
        deleted_at: None,
    }
}

fn gone(id: &str, name: &str, at: Option<u64>) -> Channel {
    let mut c = open(id, name);
    c.deleted = true;
    c.deleted_at = at;
    c
}

fn get<'a>(list: &'a [Channel], id: &str) -> Option<&'a Channel> {
    list.iter().find(|c| c.channel_id == id)
}

#[test]
fn a_remote_deletion_is_taken_over_and_migrated() {
    let (merged, moved) =
        merge_channels(&vec![open("a", "mine")], &vec![gone("a", "theirs", Some(100))], 101);
    assert!(get(&merged, "a").unwrap().deleted);
    assert_eq!(moved.len(), 1);
    assert_eq!(moved[0].channel_id, "a");
    assert_eq!(moved[0].name, "mine");
}

#[test]
fn a_local_deletion_stands() {
    let (merged, moved) =
        merge_channels(&vec![gone("a", "mine", Some(100))], &vec![open("a", "theirs")], 101);
    assert!(get(&merged, "a").unwrap().deleted);
    assert_eq!(get(&merged, "a").unwrap().name, "mine");
    assert_eq!(moved.len(), 0);
}

#[test]
fn of_two_deletions_the_later_is_kept() {
    let local = vec![gone("a", "mine", Some(100)), gone("b", "mine", Some(100))];
    let remote = vec![gone("a", "theirs", Some(101)), gone("b", "theirs", Some(100))];
    let (merged, _) = merge_channels(&local, &remote, 200);
    assert_eq!(get(&merged, "a").unwrap().name, "theirs");
    assert_eq!(get(&merged, "b").unwrap().name, "mine");
}

#[test]
fn of_two_open_channels_the_remote_is_kept() {
    let (merged, moved) =
        merge_channels(&vec![open("a", "old"), open("c", "kept")], &vec![open("a", "new"), open("b", "fresh")], 5);
    assert_eq!(merged.len(), 3);
    assert_eq!(get(&merged, "a").unwrap().name, "new");
    assert_eq!(get(&merged, "b").unwrap().name, "fresh");
    assert_eq!(get(&merged, "c").unwrap().name, "kept");
    assert_eq!(moved.len(), 0);
}

#[test]
fn old_marks_are_purged_after_thirty_days() {
    let local = vec![gone("young", "y", Some(DAY)), gone("old", "o", Some(0)), gone("undated", "u", None)];
    let (merged, _) = merge_channels(&local, &Vec::new(), 30 * DAY);
    assert!(get(&merged, "young").is_some());
    assert!(get(&merged, "old").is_none());
    assert!(get(&merged, "undated").is_some());
}

#[test]
fn a_mark_from_the_future_is_kept() {
    let (merged, _) = merge_channels(&vec![gone("a", "x", Some(1000))], &Vec::new(), 10);
    assert_eq!(merged.len(), 1);
}

#[test]
fn merging_again_changes_nothing() {
    let local = vec![open("a", "x"), gone("b", "y", Some(5))];
    let remote = vec![gone("a", "z", Some(6)), open("c", "w")];
    let (once, _) = merge_channels(&local, &remote, 10);
    let (twice, moved) = merge_channels(&once, &remote, 10);
    assert_eq!(once.len(), twice.len());
    for c in &once {
        let again = get(&twice, &c.channel_id).unwrap();
        assert_eq!((c.deleted, c.deleted_at, &c.name), (again.deleted, again.deleted_at, &again.name));
    }
    assert_eq!(moved.len(), 0);
}

#[test]
fn differing_merges_are_noticed() {
    assert!(!merge_differs(&vec![open("a", "x")], &vec![open("a", "other name")]));
    assert!(merge_differs(&vec![open("a", "x")], &vec![gone("a", "x", None)]));
    assert!(merge_differs(&vec![open("a", "x"), open("b", "y")], &vec![open("a", "x")]));
}

#[test]
fn standing_channels_are_added_once() {
    let mut list = vec![open("general", "general")];
    ensure_channel(&mut list, open("general", "again"));
    ensure_channel(&mut list, open("fallback", "fallback"));
    assert_eq!(list.len(), 2);
    assert_eq!(name_or(&list, "general", "none"), "general");
}

#[test]
fn open_channels_and_names() {
    let list = vec![open("a", "alpha"), gone("b", "beta", Some(1))];
    assert!(channel_is_open(&list, "a"));
    assert!(!channel_is_open(&list, "b"));
    assert!(!channel_is_open(&list, "c"));
    assert_eq!(display_name(&list, "b"), "beta");
    assert_eq!(display_name(&list, "c"), "c");
    assert_eq!(name_or(&list, "c", "Voice"), "Voice");
}

#[test]
fn deleting_marks_the_channel() {
    let mut list = vec![open("a", "alpha")];
    assert_eq!(delete_channel(&mut list, "a", 77), "alpha");
    assert!(list[0].deleted);
    assert_eq!(list[0].deleted_at, Some(77));
    assert_eq!(delete_channel(&mut list, "none", 78), "");
}

#[test]
fn typed_names_become_channel_names() {
    let made = new_channel("  My NEW Room ", "id1".to_string(), [3u8; 32], 9).unwrap();
    assert_eq!(made.name, "my-new-room");
    assert_eq!(made.channel_id, "id1");
    assert_eq!(made.created_at, 9);
    assert!(!made.deleted);
    assert!(new_channel(" \t", "id2".to_string(), [3u8; 32], 9).is_none());
}

#[test]
fn lower_case_beyond_ascii() {
    let made = new_channel("\u{c4}pfel", "id".to_string(), [0u8; 32], 0).unwrap();
    assert_eq!(made.name, "\u{e4}pfel");
}

#[test]
fn standing_channels_cannot_be_deleted() {
    assert!(!text_channel_is_deletable("general"));
    assert!(!text_channel_is_deletable("fallback"));
    assert!(text_channel_is_deletable("voice_general"));
    assert!(!voice_channel_is_deletable("voice_general"));
    assert!(voice_channel_is_deletable("general"));
}

#[test]
fn messages_to_closed_channels_go_to_the_fallback() {
    let list = vec![open("a", "x"), gone("b", "y", None)];
    assert_eq!(effective_channel(Some(&list), "a"), "a");
    assert_eq!(effective_channel(Some(&list), "b"), "fallback");
    assert_eq!(effective_channel(Some(&list), "c"), "fallback");
    assert_eq!(effective_channel(None, "c"), "c");
}
