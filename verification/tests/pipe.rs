use zjstatus_icons::clock::{day_before_text, now_millis, seconds_of};
use zjstatus_icons::named::NamedMap;
use zjstatus_icons::pipe::{
    claude_status, notify_at, parse_protocol, pipe, process_line, rerun_command_at, CommandResult,
    UpdateEventMask, ZellijState,
};

fn command_result() -> CommandResult {
    CommandResult {
        exit_code: Some(0),
        stdout: "out".to_owned(),
        stderr: String::new(),
        context: NamedMap::new(),
    }
}

#[test]
fn claude_status_pipe_stores_icon_by_pane_id() {
    let mut state = ZellijState::default();

    let rendered = parse_protocol(&mut state, "zjstatus::claude_status::3::🤖");

    assert!(rendered);
    assert_eq!(state.claude_icons.get(&3), Some(&"🤖".to_owned()));
}

#[test]
fn claude_status_pipe_sets_tab_cache_mask() {
    let mut state = ZellijState::default();

    parse_protocol(&mut state, "zjstatus::claude_status::7::⏳");

    assert_eq!(state.cache_mask, UpdateEventMask::Tab.bits());
}

#[test]
fn claude_status_pipe_empty_value_clears_icon() {
    let mut state = ZellijState::default();
    state.claude_icons.insert(3, "🤖".to_owned());

    parse_protocol(&mut state, "zjstatus::claude_status::3::");

    assert_eq!(state.claude_icons.get(&3), None);
}

#[test]
fn claude_status_pipe_ignores_non_numeric_pane_id() {
    let mut state = ZellijState::default();

    parse_protocol(&mut state, "zjstatus::claude_status::abc::🤖");

    assert!(state.claude_icons.is_empty());
}

#[test]
fn non_numeric_pane_id_still_requests_render() {
    let mut state = ZellijState::default();
    assert!(parse_protocol(&mut state, "zjstatus::claude_status::abc::🤖"));
    assert_eq!(state.cache_mask, 3);
    assert!(state.icon_writes.is_empty());
}

#[test]
fn claude_status_queues_write_when_session_known() {
    let mut state = ZellijState::default();
    state.session_name = Some("main".to_owned());

    parse_protocol(&mut state, "zjstatus::claude_status::+12::✅\nzjstatus::claude_status::4::");

    assert_eq!(state.icon_writes.len(), 2);
    assert_eq!(state.icon_writes[0].session, "main");
    assert_eq!(state.icon_writes[0].pane_id, 12);
    assert_eq!(state.icon_writes[0].value, "✅");
    assert_eq!(state.icon_writes[1].pane_id, 4);
    assert_eq!(state.icon_writes[1].value, "");
    assert_eq!(state.claude_icons.get(&12), Some(&"✅".to_owned()));
}

#[test]
fn claude_status_without_session_queues_nothing() {
    let mut state = ZellijState::default();
    claude_status(&mut state, "5", "x");
    assert!(state.icon_writes.is_empty());
    assert_eq!(state.claude_icons.get(&5), Some(&"x".to_owned()));
}

#[test]
fn claude_status_overflowing_pane_id_is_ignored() {
    let mut state = ZellijState::default();
    claude_status(&mut state, "4294967296", "x");
    assert!(state.claude_icons.is_empty());
}

#[test]
fn unrecognised_lines_do_not_render() {
    let mut state = ZellijState::default();
    assert!(!parse_protocol(&mut state, ""));
    assert!(!parse_protocol(&mut state, "zjstatus::claude_status::3"));
    assert!(!parse_protocol(&mut state, "other::rerun::x"));
    assert!(!parse_protocol(&mut state, "zjstatus::unknown::x"));
    assert!(!parse_protocol(&mut state, "zjstatus::pipe::only"));
    assert_eq!(state.cache_mask, 0);
}

#[test]
fn pipe_command_stores_content() {
    let mut state = ZellijState::default();
    assert!(parse_protocol(&mut state, "zjstatus::pipe::name::content::extra"));
    assert_eq!(state.pipe_results.get("name"), Some(&"content".to_owned()));
    assert!(pipe(&mut state, "name", "again"));
    assert_eq!(state.pipe_results.get("name"), Some(&"again".to_owned()));
}

#[test]
fn separator_is_matched_from_the_left() {
    let mut state = ZellijState::default();
    assert!(process_line(&mut state, "zjstatus::pipe::a:::b"));
    assert_eq!(state.pipe_results.get("a"), Some(&":b".to_owned()));
}

#[test]
fn any_rendering_line_renders_the_input() {
    let mut state = ZellijState::default();
    assert!(parse_protocol(&mut state, "junk\nzjstatus::notify::hello\nmore junk"));
    let note = state.incoming_notification.as_ref().unwrap();
    assert_eq!(note.body, "hello");
}

#[test]
fn notify_records_arrival_time() {
    let mut state = ZellijState::default();
    notify_at(&mut state, "hi", 1234);
    let note = state.incoming_notification.as_ref().unwrap();
    assert_eq!(note.body, "hi");
    assert_eq!(note.received_at_millis, 1234);

    let before = now_millis();
    parse_protocol(&mut state, "zjstatus::notify::later");
    let after = now_millis();
    let note = state.incoming_notification.as_ref().unwrap();
    assert_eq!(note.body, "later");
    assert!(before <= note.received_at_millis && note.received_at_millis <= after);
}

#[test]
fn rerun_sets_timestamp_one_day_back() {
    let mut state = ZellijState::default();
    state.command_results.insert("cmd".to_owned(), command_result());

    rerun_command_at(&mut state, "cmd", 1_700_000_000_500);

    let result = state.command_results.get("cmd").unwrap();
    assert_eq!(result.context.get("timestamp"), Some(&"1699913600".to_owned()));
    assert_eq!(result.stdout, "out");
}

#[test]
fn rerun_unknown_command_changes_nothing() {
    let mut state = ZellijState::default();
    assert!(!parse_protocol(&mut state, "zjstatus::rerun::command_1"));
    assert!(state.command_results.get("command_1").is_none());
}

#[test]
fn rerun_with_same_stamp_reports_no_change() {
    let mut state = ZellijState::default();
    state.command_results.insert("cmd".to_owned(), command_result());
    assert!(rerun_command_at(&mut state, "cmd", 1_700_000_000_500));
    assert!(!rerun_command_at(&mut state, "cmd", 1_700_000_000_900));
    assert!(rerun_command_at(&mut state, "cmd", 1_700_000_001_000));
}

#[test]
fn repeated_pipe_value_reports_no_change() {
    let mut state = ZellijState::default();
    assert!(parse_protocol(&mut state, "zjstatus::pipe::n::v"));
    assert!(!parse_protocol(&mut state, "zjstatus::pipe::n::v"));
    assert!(parse_protocol(&mut state, "zjstatus::pipe::n::w"));
}

#[test]
fn repeated_claude_status_reports_no_change() {
    let mut state = ZellijState::default();
    assert!(parse_protocol(&mut state, "zjstatus::claude_status::3::x"));
    assert!(!parse_protocol(&mut state, "zjstatus::claude_status::3::x"));
    assert!(parse_protocol(&mut state, "zjstatus::claude_status::3::"));
    assert!(!parse_protocol(&mut state, "zjstatus::claude_status::3::"));
}

#[test]
fn repeated_notification_at_same_instant_reports_no_change() {
    let mut state = ZellijState::default();
    assert!(notify_at(&mut state, "hi", 5));
    assert!(!notify_at(&mut state, "hi", 5));
    assert!(notify_at(&mut state, "hi", 6));
}

#[test]
fn protocol_reports_a_change_at_any_line() {
    let mut state = ZellijState::default();
    parse_protocol(&mut state, "zjstatus::pipe::n::v");
    assert!(parse_protocol(&mut state, "zjstatus::pipe::n::v\nzjstatus::pipe::m::v"));
    assert!(!parse_protocol(&mut state, "zjstatus::pipe::n::v\nzjstatus::rerun::none"));
}

#[test]
fn rerun_through_protocol_uses_the_clock() {
    let mut state = ZellijState::default();
    state.command_results.insert("cmd".to_owned(), command_result());
    let before = seconds_of(now_millis()) - 86400;
    assert!(parse_protocol(&mut state, "zjstatus::rerun::cmd"));
    let after = seconds_of(now_millis()) - 86400;
    let stamp: i64 = state.command_results.get("cmd").unwrap().context.get("timestamp").unwrap().parse().unwrap();
    assert!(before <= stamp && stamp <= after);
}

#[test]
fn day_before_text_formats_unix_seconds() {
    assert_eq!(day_before_text(0), "-86400");
    assert_eq!(day_before_text(-1), "-86401");
    assert_eq!(day_before_text(86_400_999), "0");
    assert_eq!(day_before_text(i64::MIN), "-9223372036941176");
    assert_eq!(seconds_of(-1000), -1);
    assert_eq!(seconds_of(-1001), -2);
    assert_eq!(seconds_of(1999), 1);
}

#[test]
fn named_map_remove_forgets_the_name() {
    let mut m: NamedMap<String> = NamedMap::new();
    m.insert("a".to_owned(), "1".to_owned());
    m.insert("b".to_owned(), "2".to_owned());
    assert_eq!(m.remove("a"), Some("1".to_owned()));
    assert!(m.get("a").is_none());
    assert_eq!(m.get("b"), Some(&"2".to_owned()));
    assert_eq!(m.remove("a"), None);
}
