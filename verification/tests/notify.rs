use hosteld::notify::{balloon_script, notification_script};

#[test]
fn quotes_are_doubled_for_the_balloon() {
    let script = balloon_script("it's", "a 'b'");
    assert!(script.contains("ShowBalloonTip(5000, 'it''s', 'a ''b''', 'Info')"));
    assert!(script.ends_with("$n.Dispose()"));
}

#[test]
fn quotes_are_escaped_for_the_notification() {
    assert_eq!(
        notification_script("t\"", "a\\b"),
        "display notification \"a\\\\b\" with title \"t\\\"\""
    );
}

#[test]
fn texts_stay_apart_when_escaped() {
    assert_ne!(notification_script("a\\\"", ""), notification_script("a\"", ""));
}
