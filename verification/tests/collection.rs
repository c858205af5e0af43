use manahg::collection::{get_selected_repos, Collection, Effect};
use manahg::dispatch::Notification;
use manahg::repo::Repository;
use manahg::sorting::SortOrder;

fn rec(path: &str, branch: &str, status: &str) -> Repository {
    let mut r = Repository::new(path.to_string());
    r.current_branch = branch.to_string();
    r.last_status = status.to_string();
    r
}

fn texts(items: &[&str]) -> Vec<String> {
    items.iter().map(|s| s.to_string()).collect()
}

fn paths_of(c: &Collection) -> Vec<String> {
    c.paths()
}

fn by_path<'a>(c: &'a Collection, path: &str) -> &'a Repository {
    c.records().iter().find(|r| r.path == path).expect("no such record")
}

fn no_path_twice(c: &Collection) -> bool {
    let mut seen = c.paths();
    seen.sort();
    seen.windows(2).all(|w| w[0] != w[1])
}

#[test]
fn a_new_collection_is_empty() {
    let c = Collection::new();
    assert_eq!(c.len(), 0);
    assert_eq!(c.records().len(), 0);
    assert!(!c.contains("/srv/r1"));
}

#[test]
fn tracking_keeps_the_order_of_the_paths_and_passes_over_repeats() {
    let c = Collection::tracking(&texts(&["/srv/b", "/srv/a", "/srv/b", "/srv/c", "/srv/a"]));
    assert_eq!(paths_of(&c), texts(&["/srv/b", "/srv/a", "/srv/c"]));
    assert_eq!(by_path(&c, "/srv/a"), &Repository::new("/srv/a".to_string()));
    assert!(c.contains("/srv/c"));
    assert!(!c.contains("/srv/d"));
}

#[test]
fn discovered_records_are_added_once_and_ordered_by_path() {
    let mut c = Collection::new();
    c.insert_discovered(vec![rec("/srv/r2", "feature", ""), rec("/srv/r1", "default", "")]);
    assert_eq!(paths_of(&c), texts(&["/srv/r1", "/srv/r2"]));
    assert_eq!(by_path(&c, "/srv/r2").current_branch, "feature");

    c.insert_discovered(vec![
        rec("/srv/r3", "a", ""),
        rec("/srv/r1", "other", ""),
        rec("/srv/r0", "b", ""),
        rec("/srv/r3", "c", ""),
    ]);
    assert_eq!(paths_of(&c), texts(&["/srv/r0", "/srv/r1", "/srv/r2", "/srv/r3"]));
    assert_eq!(by_path(&c, "/srv/r1").current_branch, "default");
    assert_eq!(by_path(&c, "/srv/r3").current_branch, "a");
    assert!(no_path_twice(&c));
}

#[test]
fn inserting_the_same_scan_result_again_changes_nothing() {
    let found = vec![rec("/srv/r2", "x", ""), rec("/srv/r1", "y", ""), rec("/srv/r2", "z", "")];
    let mut c = Collection::tracking(&texts(&["/srv/r9"]));
    c.insert_discovered(found.clone());
    let once = c.records().clone();
    c.insert_discovered(found);
    assert_eq!(c.records(), &once);
    assert_eq!(c.len(), 3);
    assert!(no_path_twice(&c));
}

#[test]
fn inserting_nothing_still_orders_by_path() {
    let mut c = Collection::tracking(&texts(&["/srv/b", "/srv/a"]));
    c.insert_discovered(Vec::new());
    assert_eq!(paths_of(&c), texts(&["/srv/a", "/srv/b"]));
}

#[test]
fn an_update_with_a_status_overwrites_the_status() {
    let mut c = Collection::new();
    c.insert_discovered(vec![rec("/srv/r1", "default", "Pull All Branches...")]);
    let mut incoming = rec("/srv/r1", "stable", "Success");
    incoming.revision = "42".to_string();
    incoming.modified = true;
    incoming.commit_type = "Draft".to_string();
    assert!(c.apply_update(incoming.clone()));
    assert_eq!(by_path(&c, "/srv/r1"), &incoming);
}

#[test]
fn an_update_without_a_status_keeps_the_status_that_was_there() {
    let mut c = Collection::new();
    c.insert_discovered(vec![
        rec("/srv/r1", "default", "Refreshing..."),
        rec("/srv/r2", "default", "Ready"),
    ]);
    let mut incoming = rec("/srv/r1", "stable", "");
    incoming.revision = "42".to_string();
    assert!(c.apply_update(incoming));
    let now = by_path(&c, "/srv/r1");
    assert_eq!(now.current_branch, "stable");
    assert_eq!(now.revision, "42");
    assert_eq!(now.last_status, "Refreshing...");
    assert_eq!(by_path(&c, "/srv/r2"), &rec("/srv/r2", "default", "Ready"));
}

#[test]
fn an_update_without_a_status_for_a_record_without_one_leaves_it_empty() {
    let mut c = Collection::tracking(&texts(&["/srv/r1"]));
    assert!(c.apply_update(rec("/srv/r1", "default", "")));
    assert_eq!(by_path(&c, "/srv/r1").last_status, "");
    assert_eq!(by_path(&c, "/srv/r1").current_branch, "default");
}

#[test]
fn an_update_for_an_absent_path_changes_nothing() {
    let mut c = Collection::new();
    c.insert_discovered(vec![rec("/srv/r1", "default", "Ready")]);
    let before = c.records().clone();
    assert!(!c.apply_update(rec("/srv/gone", "default", "Success")));
    assert_eq!(c.records(), &before);
    let mut empty = Collection::new();
    assert!(!empty.apply_update(rec("/srv/gone", "default", "Success")));
    assert_eq!(empty.len(), 0);
}

#[test]
fn a_status_patch_sets_the_status_only() {
    let mut c = Collection::new();
    let mut r1 = rec("/srv/r1", "default", "");
    r1.revision = "5".to_string();
    c.insert_discovered(vec![r1.clone(), rec("/srv/r2", "x", "Ready")]);
    assert!(c.apply_status_patch("/srv/r1", "Committing...".to_string()));
    r1.last_status = "Committing...".to_string();
    assert_eq!(by_path(&c, "/srv/r1"), &r1);
    assert_eq!(by_path(&c, "/srv/r2").last_status, "Ready");
    assert!(c.apply_status_patch("/srv/r1", String::new()));
    assert_eq!(by_path(&c, "/srv/r1").last_status, "");
    assert!(!c.apply_status_patch("/srv/none", "x".to_string()));
    assert_eq!(c.len(), 2);
}

#[test]
fn remove_drops_the_named_paths_and_tells_whether_any_was_there() {
    let mut c = Collection::tracking(&texts(&["/srv/a", "/srv/b", "/srv/c", "/srv/d"]));
    assert!(c.remove(&texts(&["/srv/c", "/srv/a", "/srv/zz"])));
    assert_eq!(paths_of(&c), texts(&["/srv/b", "/srv/d"]));
    assert!(!c.remove(&texts(&["/srv/c"])));
    assert!(!c.remove(&Vec::new()));
    assert_eq!(paths_of(&c), texts(&["/srv/b", "/srv/d"]));
    assert!(c.remove(&texts(&["/srv/b", "/srv/d"])));
    assert_eq!(c.len(), 0);
}

#[test]
fn a_result_that_arrives_after_its_record_was_removed_is_dropped() {
    let mut c = Collection::new();
    c.insert_discovered(vec![rec("/srv/r1", "default", ""), rec("/srv/r2", "feature", "")]);
    assert!(c.apply_status_patch("/srv/r1", "Refreshing...".to_string()));
    assert!(c.remove(&texts(&["/srv/r1"])));
    let before = c.records().clone();
    let effect = c.apply(Notification::RepoUpdated(rec("/srv/r1", "default", "Ready")));
    assert_eq!(effect, Effect { persist: false, redraw: true, status: None });
    assert_eq!(c.records(), &before);
    assert_eq!(paths_of(&c), texts(&["/srv/r2"]));
    c.apply(Notification::SetStatus("/srv/r1".to_string(), "Switching...".to_string()));
    assert_eq!(c.records(), &before);
}

#[test]
fn the_collection_sorts_by_column_and_order() {
    let mut c = Collection::new();
    c.insert_discovered(vec![
        rec("/srv/a", "stable", ""),
        rec("/srv/b", "default", ""),
        rec("/srv/c", "stable", ""),
        rec("/srv/d", "default", ""),
    ]);
    c.sort(1, SortOrder::Ascending);
    assert_eq!(paths_of(&c), texts(&["/srv/b", "/srv/d", "/srv/a", "/srv/c"]));
    c.sort(1, SortOrder::Descending);
    assert_eq!(paths_of(&c), texts(&["/srv/a", "/srv/c", "/srv/b", "/srv/d"]));
    c.sort(0, SortOrder::Descending);
    assert_eq!(paths_of(&c), texts(&["/srv/d", "/srv/c", "/srv/b", "/srv/a"]));
    c.sort(4, SortOrder::Unordered);
    assert_eq!(paths_of(&c), texts(&["/srv/a", "/srv/b", "/srv/c", "/srv/d"]));
    assert!(no_path_twice(&c));
}

#[test]
fn messages_are_merged_and_tell_what_is_left_to_do() {
    let mut c = Collection::new();
    let effect = c.apply(Notification::ScanComplete(vec![
        rec("/srv/r2", "feature", ""),
        rec("/srv/r1", "default", ""),
        rec("/srv/r2", "again", ""),
    ]));
    assert_eq!(
        effect,
        Effect { persist: true, redraw: true, status: Some("Found 2 repositories".to_string()) }
    );
    assert_eq!(paths_of(&c), texts(&["/srv/r1", "/srv/r2"]));

    let effect = c.apply(Notification::SetStatus("/srv/r1".to_string(), "Switching...".to_string()));
    assert_eq!(effect, Effect { persist: false, redraw: true, status: None });
    assert_eq!(by_path(&c, "/srv/r1").last_status, "Switching...");

    let effect = c.apply(Notification::RepoUpdated(rec("/srv/r1", "stable", "Switched")));
    assert_eq!(effect, Effect { persist: false, redraw: true, status: None });
    assert_eq!(by_path(&c, "/srv/r1"), &rec("/srv/r1", "stable", "Switched"));

    let before = c.records().clone();
    let effect = c.apply(Notification::SetGlobalStatus("Ready".to_string()));
    assert_eq!(effect, Effect { persist: false, redraw: false, status: Some("Ready".to_string()) });
    assert_eq!(c.records(), &before);

    let effect = c.apply(Notification::ScanComplete(Vec::new()));
    assert_eq!(effect.status, Some("Found 2 repositories".to_string()));
}

#[test]
fn selected_rows_count_from_one() {
    let repos = vec![rec("/srv/a", "", ""), rec("/srv/b", "", ""), rec("/srv/c", "", "")];
    assert_eq!(get_selected_repos(&[1, 3], &repos), vec![repos[0].clone(), repos[2].clone()]);
    assert_eq!(get_selected_repos(&[3, 1, 1], &repos), vec![repos[2].clone(), repos[0].clone(), repos[0].clone()]);
    assert_eq!(get_selected_repos(&[0, -1, 4, i32::MAX, i32::MIN], &repos), Vec::new());
    assert_eq!(get_selected_repos(&[], &repos), Vec::new());
    assert_eq!(get_selected_repos(&[1], &[]), Vec::new());
    assert_eq!(get_selected_repos(&[0, 2, 7], &repos), vec![repos[1].clone()]);
}
