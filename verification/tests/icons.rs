use std::collections::{BTreeMap, BTreeSet};

use zjstatus_icons::icons::{
    apply_status, fresh_icon_temp_file, icon_file, icon_temp_file, parse, persisted_text, pruned,
    serialize, stored_map,
};

/// Persists one pane's status into an in-memory session file.
fn persist_into(file: &mut Option<String>, pane_id: u32, value: &str) {
    let text = persisted_text(file.as_deref(), pane_id, value);
    *file = Some(text);
}

/// Prunes an in-memory session file to the live panes.
fn prune_in(file: &mut Option<String>, live: &BTreeSet<u32>) -> BTreeMap<u32, String> {
    let (map, rewrite) = pruned(file.as_deref(), live);
    if let Some(text) = rewrite {
        *file = Some(text);
    }
    map
}

#[test]
fn serialize_parse_roundtrip() {
    let mut icons = BTreeMap::new();
    icons.insert(1u32, "🤖".to_owned());
    icons.insert(42u32, "✅".to_owned());

    let back = parse(&serialize(&icons));

    assert_eq!(back, icons);
}

#[test]
fn parse_skips_malformed_lines() {
    let text = "1=🤖\nnonsense\n=⏳\nabc=✅\n7=\n9=ok\n";

    let map = parse(text);

    assert_eq!(map.get(&1), Some(&"🤖".to_owned()));
    assert_eq!(map.get(&9), Some(&"ok".to_owned()));
    assert_eq!(map.len(), 2, "{map:?}");
}

#[test]
fn icon_file_sanitizes_session_name() {
    let p = icon_file("zjcs/weird name.1");
    assert_eq!(p, "/tmp/zjstatus/zjcs_weird_name_1.icons");
}

#[test]
fn persist_then_reload_roundtrips_through_a_file() {
    let mut file: Option<String> = None;

    persist_into(&mut file, 5, "🤖");
    persist_into(&mut file, 6, "✅");

    let map = stored_map(file.as_deref());
    assert_eq!(map.get(&5), Some(&"🤖".to_owned()));
    assert_eq!(map.get(&6), Some(&"✅".to_owned()));
}

#[test]
fn persist_empty_value_clears_one_pane_keeps_others() {
    let mut file: Option<String> = None;

    persist_into(&mut file, 5, "🤖");
    persist_into(&mut file, 6, "✅");
    persist_into(&mut file, 5, "");

    let map = stored_map(file.as_deref());
    assert_eq!(map.get(&5), None);
    assert_eq!(map.get(&6), Some(&"✅".to_owned()));
}

#[test]
fn persist_does_not_clobber_another_instances_pane() {
    let mut file: Option<String> = None;

    persist_into(&mut file, 1, "🤖");
    persist_into(&mut file, 2, "⏳");

    let map = stored_map(file.as_deref());
    assert_eq!(map.len(), 2, "{map:?}");
}

#[test]
fn prune_removes_dead_pane_entries() {
    let mut file: Option<String> = None;

    persist_into(&mut file, 5, "🤖");
    persist_into(&mut file, 7, "⏳");
    persist_into(&mut file, 9, "✅");

    let live = BTreeSet::from([5u32, 9u32]);
    prune_in(&mut file, &live);

    let map = stored_map(file.as_deref());
    assert_eq!(map.get(&5), Some(&"🤖".to_owned()));
    assert_eq!(map.get(&9), Some(&"✅".to_owned()));
    assert_eq!(map.get(&7), None, "dead pane 7 was not pruned: {map:?}");
    assert_eq!(map.len(), 2, "{map:?}");
}

#[test]
fn prune_with_no_file_is_noop() {
    let mut file: Option<String> = None;

    let map = prune_in(&mut file, &BTreeSet::from([1u32, 2u32]));

    assert!(map.is_empty());
    assert!(file.is_none());
    assert!(stored_map(file.as_deref()).is_empty());
}

#[test]
fn persist_sequential_distinct_panes_both_survive() {
    let mut file: Option<String> = None;

    persist_into(&mut file, 1, "🤖");
    persist_into(&mut file, 2, "⏳");

    let map = stored_map(file.as_deref());
    assert_eq!(map.get(&1), Some(&"🤖".to_owned()));
    assert_eq!(map.get(&2), Some(&"⏳".to_owned()));
    assert_eq!(map.len(), 2, "{map:?}");
}

#[test]
fn reload_missing_file_is_empty() {
    let map = stored_map(None);
    assert!(map.is_empty());
}

#[test]
fn serialize_orders_by_pane_id() {
    let mut icons = BTreeMap::new();
    icons.insert(42u32, "b".to_owned());
    icons.insert(7u32, "a".to_owned());
    icons.insert(0u32, "z=z".to_owned());
    icons.insert(4294967295u32, "max".to_owned());

    assert_eq!(serialize(&icons), "0=z=z\n7=a\n42=b\n4294967295=max\n");
}

#[test]
fn serialize_empty_map_is_empty_text() {
    assert_eq!(serialize(&BTreeMap::new()), "");
}

#[test]
fn parse_follows_u32_parsing_and_lines() {
    let text = "+5=plus\n007=seven\n-1=neg\n4294967296=big\n 8=space\n9=a=b\r\n10=last\r";

    let map = parse(text);

    assert_eq!(map.get(&5), Some(&"plus".to_owned()));
    assert_eq!(map.get(&7), Some(&"seven".to_owned()));
    assert_eq!(map.get(&9), Some(&"a=b".to_owned()));
    assert_eq!(map.get(&10), Some(&"last\r".to_owned()));
    assert_eq!(map.len(), 4, "{map:?}");
}

#[test]
fn parse_later_line_wins() {
    let map = parse("3=old\n3=new\n");
    assert_eq!(map.get(&3), Some(&"new".to_owned()));
    assert_eq!(map.len(), 1);
}

#[test]
fn parse_empty_text_is_empty() {
    assert!(parse("").is_empty());
    assert!(parse("\n\n").is_empty());
}

#[test]
fn apply_status_sets_and_clears() {
    let mut icons = BTreeMap::new();
    icons.insert(1u32, "x".to_owned());

    apply_status(&mut icons, 2, "y");
    assert_eq!(icons.get(&2), Some(&"y".to_owned()));
    assert_eq!(icons.get(&1), Some(&"x".to_owned()));

    apply_status(&mut icons, 1, "");
    assert_eq!(icons.get(&1), None);
    assert_eq!(icons.len(), 1);
}

#[test]
fn pruned_without_dead_panes_leaves_file() {
    let file = Some("1=a\n2=b\n".to_owned());
    let (map, rewrite) = pruned(file.as_deref(), &BTreeSet::from([1u32, 2u32, 3u32]));
    assert!(rewrite.is_none());
    assert_eq!(map.len(), 2);
}

#[test]
fn pruned_rewrites_with_live_panes_only() {
    let file = Some("1=a\n2=b\n".to_owned());
    let (map, rewrite) = pruned(file.as_deref(), &BTreeSet::from([2u32]));
    assert_eq!(rewrite, Some("2=b\n".to_owned()));
    assert_eq!(map.len(), 1);
}

#[test]
fn persisted_text_merges_into_current_contents() {
    let text = persisted_text(Some("9=z\n1=a\n"), 5, "m");
    assert_eq!(text, "1=a\n5=m\n9=z\n");
}

#[test]
fn icon_file_keeps_safe_characters() {
    assert_eq!(icon_file("Abc-09_x"), "/tmp/zjstatus/Abc-09_x.icons");
    assert_eq!(icon_file(""), "/tmp/zjstatus/.icons");
    assert_eq!(icon_file("é:ü"), "/tmp/zjstatus/___.icons");
}

#[test]
fn icon_temp_file_appends_token() {
    assert_eq!(icon_temp_file("s 1", "tok"), "/tmp/zjstatus/s_1.icons.tok.tmp");
}

#[test]
fn fresh_icon_temp_file_has_a_v4_uuid() {
    let a = fresh_icon_temp_file("s");
    let b = fresh_icon_temp_file("s");
    assert_ne!(a, b);
    let prefix = "/tmp/zjstatus/s.icons.";
    assert!(a.starts_with(prefix));
    assert!(a.ends_with(".tmp"));
    let token = &a[prefix.len()..a.len() - 4];
    assert_eq!(token.len(), 36);
    let chars: Vec<char> = token.chars().collect();
    for (i, c) in chars.iter().enumerate() {
        if i == 8 || i == 13 || i == 18 || i == 23 {
            assert_eq!(*c, '-');
        } else {
            assert!(c.is_ascii_hexdigit() && !c.is_ascii_uppercase());
        }
    }
    assert_eq!(chars[14], '4');
    assert!(matches!(chars[19], '8' | '9' | 'a' | 'b'));
}
