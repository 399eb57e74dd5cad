use zyma::output::{output_event_name, OutputState};

#[test]
fn append_creates_a_channel_once() {
    let mut state = OutputState::new();
    assert!(state.list_channels().is_empty());
    assert!(state.append("build", "one".to_string(), 10));
    assert!(!state.append("build", "two".to_string(), 11));
    assert!(state.append("test", "x".to_string(), 12));
    assert_eq!(state.list_channels(), vec!["build".to_string(), "test".to_string()]);
    let lines = state.get_content("build");
    assert_eq!(lines.len(), 2);
    assert_eq!(lines[0].content, "one");
    assert_eq!(lines[0].timestamp, 10);
    assert_eq!(lines[1].content, "two");
    assert_eq!(lines[1].timestamp, 11);
    assert_eq!(state.get_content("test").len(), 1);
    assert!(state.get_content("none").is_empty());
}

#[test]
fn a_channel_keeps_its_last_thousand_lines() {
    let mut state = OutputState::new();
    for i in 0..1000 {
        state.append("log", format!("line {}", i), i);
    }
    assert_eq!(state.get_content("log").len(), 1000);
    assert_eq!(state.get_content("log")[0].content, "line 0");
    state.append("log", "line 1000".to_string(), 1000);
    let lines = state.get_content("log");
    assert_eq!(lines.len(), 1000);
    assert_eq!(lines[0].content, "line 1");
    assert_eq!(lines[999].content, "line 1000");
}

#[test]
fn clear_empties_one_channel_and_keeps_it() {
    let mut state = OutputState::new();
    state.append("a", "1".to_string(), 1);
    state.append("b", "2".to_string(), 2);
    state.clear("a");
    state.clear("missing");
    assert!(state.get_content("a").is_empty());
    assert_eq!(state.get_content("b").len(), 1);
    assert_eq!(state.list_channels(), vec!["a".to_string(), "b".to_string()]);
    assert!(!state.append("a", "3".to_string(), 3));
    assert_eq!(state.get_content("a")[0].content, "3");
}

#[test]
fn line_events_are_named_after_the_channel() {
    assert_eq!(output_event_name("build"), "output_build");
    assert_eq!(output_event_name(""), "output_");
}
