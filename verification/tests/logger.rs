use hosteld::logger::{
    copied_text, get_log_buffer, get_log_lines, log, matches_log_filter, shown_lines, LogFilter,
};

#[test]
fn an_empty_log_has_no_lines() {
    assert_eq!(get_log_lines(&get_log_buffer()).len(), 0);
}

#[test]
fn the_log_keeps_the_latest_lines() {
    let mut buffer = get_log_buffer();
    for i in 0..2005 {
        log(&mut buffer, "1.000", &format!("line {}", i));
    }
    let lines = get_log_lines(&buffer);
    assert_eq!(lines.len(), 2000);
    assert_eq!(lines[0], "[1.000] line 5");
    assert_eq!(lines[1999], "[1.000] line 2004");
    buffer.clear();
    assert_eq!(get_log_lines(&buffer).len(), 0);
}

#[test]
fn a_tagged_message_passes_its_filter() {
    let mut buffer = get_log_buffer();
    let line = log(&mut buffer, "     0.001", "[group-chat] hi");
    assert_eq!(line, "[     0.001] [group-chat] hi");
    assert_eq!(get_log_lines(&buffer), vec![line.clone()]);
    assert!(matches_log_filter(&line, LogFilter::Groups));
    assert!(matches_log_filter(&line, LogFilter::All));
    assert!(!matches_log_filter(&line, LogFilter::Voice));
    assert!(matches_log_filter(&format!("before {} after", line), LogFilter::Groups));
}

#[test]
fn filters_go_by_the_mark() {
    let daemon = "[     0.001] [daemon] up";
    let group = "[     0.002] [groupcall] joined";
    assert!(matches_log_filter(daemon, LogFilter::All));
    assert!(matches_log_filter(daemon, LogFilter::Daemon));
    assert!(!matches_log_filter(daemon, LogFilter::Groups));
    assert!(matches_log_filter(group, LogFilter::Groups));
    assert!(matches_log_filter("[ 1] [voice] x", LogFilter::Voice));
    assert!(matches_log_filter("[ 1] [gui] x", LogFilter::Gui));
    assert!(!matches_log_filter("said [daemon]", LogFilter::Daemon));
}

#[test]
fn shown_and_copied_lines() {
    let lines: Vec<String> =
        ["[1] [daemon] a", "[2] [gui] b", "[3] [daemon] c"].iter().map(|s| s.to_string()).collect();
    assert_eq!(shown_lines(&lines, LogFilter::Daemon).len(), 2);
    assert_eq!(copied_text(&lines, LogFilter::Daemon), "[1] [daemon] a\n[3] [daemon] c");
    assert_eq!(copied_text(&lines, LogFilter::Network), "");
}
