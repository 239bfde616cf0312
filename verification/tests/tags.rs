use pinnacle::output::{switch_to_tag, toggle_tag, BlankingState, OutputState};
use pinnacle::tag::{toggle_tag_on_window, Tag, TagId, TagIdCounter, TagTable};

#[test]
fn tag_ids_count_up_from_counter() {
    let mut counter = TagIdCounter::default();
    let a = TagId::next(&mut counter);
    let b = TagId::next(&mut counter);
    assert_eq!(a.to_inner(), 0);
    assert_eq!(b.to_inner(), 1);
    assert_eq!(counter.next, 2);
    assert_ne!(a, b);
}

#[test]
fn tag_id_counter_wraps() {
    let mut counter = TagIdCounter { next: u32::MAX };
    let a = TagId::next(&mut counter);
    assert_eq!(a.to_inner(), u32::MAX);
    assert_eq!(counter.next, 0);
}

#[test]
fn tag_id_reset_restarts_at_zero() {
    let mut counter = TagIdCounter::default();
    let mut table = TagTable::new();
    let _ = Tag::new("1".to_string(), &mut counter, &mut table);
    let _ = Tag::new("2".to_string(), &mut counter, &mut table);
    TagId::reset(&mut counter);
    let t = Tag::new("3".to_string(), &mut counter, &mut table);
    assert_eq!(t.id(&table), TagId::new(0));
}

#[test]
fn new_tag_is_inactive_and_live() {
    let mut counter = TagIdCounter::default();
    let mut table = TagTable::new();
    let t = Tag::new("web".to_string(), &mut counter, &mut table);
    assert_eq!(t.name(&table), "web");
    assert!(!t.active(&table));
    assert!(!t.defunct(&table));
}

#[test]
fn set_active_reports_changes() {
    let mut counter = TagIdCounter::default();
    let mut table = TagTable::new();
    let t = Tag::new("1".to_string(), &mut counter, &mut table);
    assert!(t.set_active(&mut table, true));
    assert!(t.active(&table));
    assert!(!t.set_active(&mut table, true));
    assert!(t.set_active(&mut table, false));
    assert!(!t.active(&table));
}

#[test]
fn clones_of_a_tag_share_its_state() {
    let mut counter = TagIdCounter::default();
    let mut table = TagTable::new();
    let t = Tag::new("1".to_string(), &mut counter, &mut table);
    let c = t.clone();
    assert!(!t.active(&table));
    c.set_active(&mut table, true);
    assert!(t.active(&table));
    assert_eq!(c, t);
    let other = Tag::new("1".to_string(), &mut counter, &mut table);
    assert_ne!(other, t);
}

#[test]
fn replace_takes_all_new_fields() {
    let mut counter = TagIdCounter::default();
    let mut table = TagTable::new();
    let old = Tag::new("old".to_string(), &mut counter, &mut table);
    let seen_elsewhere = old.clone();
    old.make_defunct(&mut table);
    assert!(old.defunct(&table));
    let new = Tag::new("new".to_string(), &mut counter, &mut table);
    new.set_active(&mut table, true);
    old.replace(&mut table, new);
    assert_eq!(seen_elsewhere.name(&table), "new");
    assert_eq!(seen_elsewhere.id(&table), TagId::new(1));
    assert!(seen_elsewhere.active(&table));
    assert!(!seen_elsewhere.defunct(&table));
}

#[test]
fn replace_with_a_defunct_tag_leaves_it_defunct() {
    let mut counter = TagIdCounter::default();
    let mut table = TagTable::new();
    let old = Tag::new("old".to_string(), &mut counter, &mut table);
    let new = Tag::new("new".to_string(), &mut counter, &mut table);
    new.make_defunct(&mut table);
    assert!(!old.defunct(&table));
    old.replace(&mut table, new);
    assert!(old.defunct(&table));
    assert_eq!(old.name(&table), "new");
}

fn output_with(names: &[&str], counter: &mut TagIdCounter, table: &mut TagTable) -> OutputState {
    let mut out = OutputState::default();
    let tags = names.iter().map(|n| Tag::new(n.to_string(), counter, table)).collect();
    out.add_tags(table, tags);
    out
}

fn names(out: &OutputState, table: &TagTable) -> Vec<String> {
    out.tags.iter().map(|t| t.name(table)).collect()
}

#[test]
fn output_state_defaults() {
    let out = OutputState::default();
    assert!(out.tags.is_empty());
    assert!(out.powered);
    assert_eq!(out.blanking_state, BlankingState::NotBlanked);
    assert_eq!(BlankingState::default(), BlankingState::NotBlanked);
}

#[test]
fn focused_tags_are_the_active_ones_in_order() {
    let mut counter = TagIdCounter::default();
    let mut table = TagTable::new();
    let out = output_with(&["1", "2", "3"], &mut counter, &mut table);
    out.tags[2].set_active(&mut table, true);
    out.tags[0].set_active(&mut table, true);
    let focused: Vec<String> = out.focused_tags(&table).iter().map(|t| t.name(&table)).collect();
    assert_eq!(focused, vec!["1".to_string(), "3".to_string()]);
}

#[test]
fn add_tags_appends_when_nothing_is_defunct() {
    let mut counter = TagIdCounter::default();
    let mut table = TagTable::new();
    let mut out = output_with(&["1", "2"], &mut counter, &mut table);
    let t = Tag::new("3".to_string(), &mut counter, &mut table);
    out.add_tags(&mut table, vec![t]);
    assert_eq!(names(&out, &table), vec!["1", "2", "3"]);
}

#[test]
fn add_tags_replaces_only_defunct_tags() {
    let mut counter = TagIdCounter::default();
    let mut table = TagTable::new();
    let mut out = output_with(&["A", "B", "C"], &mut counter, &mut table);
    out.tags[0].make_defunct(&mut table);
    out.tags[2].make_defunct(&mut table);
    let x = Tag::new("X".to_string(), &mut counter, &mut table);
    let y = Tag::new("Y".to_string(), &mut counter, &mut table);
    let (x_id, y_id) = (x.id(&table), y.id(&table));
    out.add_tags(&mut table, vec![x, y]);
    assert_eq!(names(&out, &table), vec!["X", "B", "Y"]);
    assert_eq!(out.tags[0].id(&table), x_id);
    assert_eq!(out.tags[2].id(&table), y_id);
    assert_eq!(out.tags[1].id(&table), TagId::new(1));
    assert!(out.tags.iter().all(|t| !t.defunct(&table)));
}

#[test]
fn add_tags_appends_leftovers_and_stops_when_new_tags_run_out() {
    let mut counter = TagIdCounter::default();
    let mut table = TagTable::new();
    let mut out = output_with(&["1", "2"], &mut counter, &mut table);
    out.tags[1].make_defunct(&mut table);
    let a = Tag::new("a".to_string(), &mut counter, &mut table);
    let b = Tag::new("b".to_string(), &mut counter, &mut table);
    out.add_tags(&mut table, vec![a, b]);
    assert_eq!(names(&out, &table), vec!["1", "a", "b"]);
    let mut out2 = output_with(&["p", "q"], &mut counter, &mut table);
    out2.tags[0].make_defunct(&mut table);
    out2.tags[1].make_defunct(&mut table);
    let c = Tag::new("c".to_string(), &mut counter, &mut table);
    out2.add_tags(&mut table, vec![c]);
    assert_eq!(names(&out2, &table), vec!["c", "q"]);
    assert!(out2.tags[1].defunct(&table));
}

#[test]
fn tag_lookup_skips_defunct_tags() {
    let mut counter = TagIdCounter::default();
    let mut table = TagTable::new();
    let first = output_with(&["1", "2"], &mut counter, &mut table);
    let second = output_with(&["3"], &mut counter, &mut table);
    second.tags[0].make_defunct(&mut table);
    let outputs = vec![first, second];
    let found = TagId::new(1).tag(&outputs, &table).map(|t| t.name(&table));
    assert_eq!(found, Some("2".to_string()));
    assert!(TagId::new(2).tag(&outputs, &table).is_none());
    assert!(TagId::new(9).tag(&outputs, &table).is_none());
}

#[test]
fn tag_output_finds_the_holding_output() {
    let mut counter = TagIdCounter::default();
    let mut table = TagTable::new();
    let first = output_with(&["1"], &mut counter, &mut table);
    let second = output_with(&["2"], &mut counter, &mut table);
    let probe = second.tags[0].clone();
    let outputs = vec![first, second];
    assert_eq!(probe.output(&outputs), Some(1));
    let stray = Tag::new("x".to_string(), &mut counter, &mut table);
    assert_eq!(stray.output(&outputs), None);
}

#[test]
fn toggle_tag_flips_the_first_live_tag() {
    let mut counter = TagIdCounter::default();
    let mut table = TagTable::new();
    let first = output_with(&["1", "2"], &mut counter, &mut table);
    let second = output_with(&["3"], &mut counter, &mut table);
    let outputs = vec![first, second];
    assert_eq!(toggle_tag(&outputs, &mut table, TagId::new(2)), Some(1));
    assert!(outputs[1].tags[0].active(&table));
    assert_eq!(toggle_tag(&outputs, &mut table, TagId::new(2)), Some(1));
    assert!(!outputs[1].tags[0].active(&table));
    assert_eq!(toggle_tag(&outputs, &mut table, TagId::new(9)), None);
    outputs[0].tags[0].make_defunct(&mut table);
    assert_eq!(toggle_tag(&outputs, &mut table, TagId::new(0)), None);
    assert!(!outputs[0].tags[0].active(&table));
}

#[test]
fn switch_to_tag_leaves_only_that_tag_active_on_its_output() {
    let mut counter = TagIdCounter::default();
    let mut table = TagTable::new();
    let first = output_with(&["1", "2", "3"], &mut counter, &mut table);
    let second = output_with(&["4"], &mut counter, &mut table);
    first.tags[0].set_active(&mut table, true);
    first.tags[2].set_active(&mut table, true);
    second.tags[0].set_active(&mut table, true);
    let outputs = vec![first, second];
    assert_eq!(switch_to_tag(&outputs, &mut table, TagId::new(1)), Some(0));
    let active: Vec<bool> = outputs[0].tags.iter().map(|t| t.active(&table)).collect();
    assert_eq!(active, vec![false, true, false]);
    assert!(outputs[1].tags[0].active(&table));
    assert_eq!(switch_to_tag(&outputs, &mut table, TagId::new(7)), None);
}

#[test]
fn toggle_tag_on_window_adds_or_removes_it() {
    let mut counter = TagIdCounter::default();
    let mut table = TagTable::new();
    let a = Tag::new("a".to_string(), &mut counter, &mut table);
    let b = Tag::new("b".to_string(), &mut counter, &mut table);
    let mut window_tags = vec![a];
    toggle_tag_on_window(&mut window_tags, b);
    assert_eq!(window_tags, vec![a, b]);
    toggle_tag_on_window(&mut window_tags, a);
    assert_eq!(window_tags, vec![b]);
    toggle_tag_on_window(&mut window_tags, b);
    assert!(window_tags.is_empty());
}
