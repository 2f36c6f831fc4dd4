use pacman_blame::argparse::{ApiList, CommonOptions};
use pacman_blame::listing::{find_required_by, ReasonSelector, ReqByItem};
use pacman_blame::orchestrate::{list_packages, prepare, ProgramError};
use pacman_blame::text::join;
use pacman_blame::package::{PackageDb, PackageReason, PackageRecord};

fn record(name: &str, reason: PackageReason, required_by: &[&str]) -> PackageRecord {
    PackageRecord {
        name: name.to_string(),
        version: "1.0".to_string(),
        desc: None,
        reason,
        required_by: required_by.iter().map(|s| s.to_string()).collect(),
    }
}

fn database(records: Vec<PackageRecord>) -> PackageDb {
    let mut db = PackageDb::new();
    for r in records {
        assert!(db.insert(r));
    }
    db
}

fn list(queries: &[&str], explicit: bool, dependency: bool, required_by: bool) -> ApiList {
    ApiList {
        queries: queries.iter().map(|s| s.to_string()).collect(),
        explicit,
        dependency,
        required_by,
    }
}

fn common(color: bool, format: Option<&str>) -> CommonOptions {
    CommonOptions { verbose: false, color, format: format.map(|f| f.to_string()) }
}

fn item_name(item: &ReqByItem) -> &str {
    match item {
        ReqByItem::Explicit(n) | ReqByItem::Depend(n) => n,
    }
}

#[test]
fn selector_from_flags() {
    assert_eq!(ReasonSelector::new(true, false), ReasonSelector::Explicit);
    assert_eq!(ReasonSelector::new(false, true), ReasonSelector::Depend);
    assert_eq!(ReasonSelector::new(false, false), ReasonSelector::Both);
    assert_eq!(ReasonSelector::new(true, true), ReasonSelector::Both);
}

#[test]
fn no_preference_and_both_flags_keep_everything() {
    for sel in [ReasonSelector::new(false, false), ReasonSelector::new(true, true)] {
        assert_eq!(sel.filter(PackageReason::Explicit), Some(PackageReason::Explicit));
        assert_eq!(sel.filter(PackageReason::Depend), Some(PackageReason::Depend));
        assert!(sel.test(&ReqByItem::Explicit("a".to_string())));
        assert!(sel.test(&ReqByItem::Depend("b".to_string())));
    }
}

#[test]
fn single_reason_selectors_filter() {
    let e = ReasonSelector::Explicit;
    let d = ReasonSelector::Depend;
    assert_eq!(e.filter(PackageReason::Depend), None);
    assert_eq!(d.filter(PackageReason::Explicit), None);
    assert_eq!(d.filter(PackageReason::Depend), Some(PackageReason::Depend));
    assert!(e.test(&ReqByItem::Explicit("a".to_string())));
    assert!(!e.test(&ReqByItem::Depend("a".to_string())));
    assert!(d.test(&ReqByItem::Depend("a".to_string())));
    assert!(!d.test(&ReqByItem::Explicit("a".to_string())));
}

#[test]
fn draw_highlights_explicit_with_color() {
    assert_eq!(ReqByItem::Explicit("a".to_string()).draw(true), "\x1b[33ma\x1b[m");
    assert_eq!(ReqByItem::Explicit("a".to_string()).draw(false), "a");
    assert_eq!(ReqByItem::Depend("b".to_string()).draw(true), "b");
}

#[test]
fn cyclic_required_by_terminates_without_repeats() {
    let db = database(vec![
        record("A", PackageReason::Explicit, &["B"]),
        record("B", PackageReason::Depend, &["A"]),
    ]);
    let found = find_required_by(&db, 0, ReasonSelector::Both);
    let names: Vec<&str> = found.items.iter().map(item_name).collect();
    assert_eq!(names, vec!["B", "A"]);
    assert!(found.missing.is_empty());
}

#[test]
fn required_by_is_transitive_and_breadth_first() {
    let db = database(vec![
        record("lib", PackageReason::Depend, &["mid1", "mid2"]),
        record("mid1", PackageReason::Depend, &["app"]),
        record("mid2", PackageReason::Depend, &["app", "ghost"]),
        record("app", PackageReason::Explicit, &[]),
    ]);
    let found = find_required_by(&db, 0, ReasonSelector::Both);
    let names: Vec<&str> = found.items.iter().map(item_name).collect();
    assert_eq!(names, vec!["mid1", "mid2", "app"]);
    assert_eq!(found.missing, vec!["ghost".to_string()]);
    let only_explicit = find_required_by(&db, 0, ReasonSelector::Explicit);
    let names: Vec<&str> = only_explicit.items.iter().map(item_name).collect();
    assert_eq!(names, vec!["app"]);
}

#[test]
fn required_by_without_queries_is_invalid_request() {
    let r = prepare(&list(&[], false, false, true), &common(false, None));
    assert!(matches!(r, Err(ProgramError::InvalidRequest(_))));
    let db = database(vec![record("a", PackageReason::Explicit, &[])]);
    let r = list_packages(&db, &list(&[], false, false, true), &common(false, Some("%")));
    assert!(matches!(r, Err(ProgramError::InvalidRequest(_))));
}

#[test]
fn unmatched_names_are_dropped() {
    let db = database(vec![record("real-pkg", PackageReason::Explicit, &[])]);
    let out = list_packages(&db, &list(&["real-pkg", "ghost-pkg"], false, false, false), &common(false, None))
        .expect("listing succeeds");
    assert_eq!(out.lines, vec!["real-pkg".to_string()]);
}

#[test]
fn no_match_is_no_packages_found() {
    let db = database(vec![record("real-pkg", PackageReason::Explicit, &[])]);
    let r = list_packages(&db, &list(&["ghost-pkg"], false, false, false), &common(false, None));
    assert!(matches!(r, Err(ProgramError::NoPackagesFound)));
}

#[test]
fn empty_database_is_no_packages_found() {
    let db = PackageDb::new();
    let r = list_packages(&db, &list(&[], false, false, false), &common(false, None));
    assert!(matches!(r, Err(ProgramError::NoPackagesFound)));
}

#[test]
fn bad_format_is_invalid_format() {
    let db = database(vec![record("a", PackageReason::Explicit, &[])]);
    match list_packages(&db, &list(&["a"], false, false, false), &common(false, Some("%q"))) {
        Err(ProgramError::InvalidFormat(f)) => assert_eq!(f, "%q"),
        other => panic!("unexpected: {:?}", other),
    }
}

#[test]
fn bad_query_is_invalid_query() {
    let db = database(vec![record("a", PackageReason::Explicit, &[])]);
    let r = list_packages(&db, &list(&["a", "group:x", " b :y"], false, false, false), &common(false, None));
    match r {
        Err(ProgramError::InvalidQuery(e)) => assert_eq!(e.message(), "property not supported: group"),
        other => panic!("unexpected: {:?}", other),
    }
}

#[test]
fn whole_database_listed_with_reason_filter() {
    let db = database(vec![
        record("a", PackageReason::Explicit, &[]),
        record("b", PackageReason::Depend, &[]),
        record("c", PackageReason::Explicit, &[]),
    ]);
    let out = list_packages(&db, &list(&[], true, false, false), &common(false, Some("%n %r")))
        .expect("listing succeeds");
    assert_eq!(out.lines, vec!["a Explicit".to_string(), "c Explicit".to_string()]);
    let out = list_packages(&db, &list(&[], false, true, false), &common(false, None)).expect("listing succeeds");
    assert_eq!(out.lines, vec!["b".to_string()]);
}

#[test]
fn required_by_lines_are_space_joined() {
    let db = database(vec![
        record("lib", PackageReason::Depend, &["x", "y"]),
        record("x", PackageReason::Explicit, &[]),
        record("y", PackageReason::Depend, &[]),
        record("lone", PackageReason::Explicit, &[]),
    ]);
    let out = list_packages(&db, &list(&["lib", "lone"], false, false, true), &common(true, None))
        .expect("listing succeeds");
    assert_eq!(out.lines, vec!["\x1b[33mx\x1b[m y".to_string()]);
}

#[test]
fn join_puts_separator_between_parts() {
    let parts = vec!["a".to_string(), "b".to_string(), "c".to_string()];
    assert_eq!(join(&parts, "\n"), "a\nb\nc");
    assert_eq!(join(&Vec::new(), " "), "");
    assert_eq!(join(&vec!["x".to_string()], " "), "x");
}

#[test]
fn duplicate_names_are_refused() {
    let mut db = PackageDb::new();
    assert!(db.insert(record("a", PackageReason::Explicit, &[])));
    assert!(!db.insert(record("a", PackageReason::Depend, &[])));
    assert_eq!(db.len(), 1);
    assert_eq!(db.lookup(&"a".to_string()), Some(0));
    assert_eq!(db.lookup(&"b".to_string()), None);
}
