use manahg::command::{HgError, Invocation, Reply, Step};
use manahg::repo::{copy_records, copy_text, update_browser, Repository};

fn texts(items: &[&str]) -> Vec<String> {
    items.iter().map(|s| s.to_string()).collect()
}

fn hg(dir: &str, args: &[&str]) -> Invocation {
    Invocation { program: "hg".to_string(), dir: dir.to_string(), args: texts(args) }
}

fn record(path: &str, branch: &str) -> Repository {
    let mut r = Repository::new(path.to_string());
    r.current_branch = branch.to_string();
    r
}

/// Runs a verb to its end against replies prepared in advance, and notes
/// every command that the verb asked for.
fn drive<T>(
    mut verb: impl FnMut(&[Reply]) -> Step<T>,
    prepared: Vec<Reply>,
    asked: &mut Vec<Invocation>,
) -> T {
    let mut prepared = prepared.into_iter();
    let mut replies: Vec<Reply> = Vec::new();
    loop {
        match verb(&replies) {
            Step::Done(result) => return result,
            Step::Run(inv) => {
                asked.push(inv);
                replies.push(prepared.next().expect("the verb asked for more than was prepared"));
            }
        }
    }
}

fn failed(text: &str) -> Reply {
    Err(HgError::CommandFailed(text.to_string()))
}

fn ok(text: &str) -> Reply {
    Ok(text.to_string())
}

#[test]
fn a_new_record_knows_only_its_path() {
    let r = Repository::new("/srv/r1".to_string());
    assert_eq!(r.path, "/srv/r1");
    assert_eq!(r.current_branch, "");
    assert_eq!(r.revision, "");
    assert!(!r.modified);
    assert_eq!(r.commit_type, "");
    assert_eq!(r.last_status, "");
}

#[test]
fn the_current_branch_is_the_reply_to_the_branch_query() {
    let r = record("/srv/r1", "");
    let mut asked = Vec::new();
    let got = drive(|replies| r.get_current_branch(replies), vec![ok("default")], &mut asked);
    assert_eq!(got, ok("default"));
    assert_eq!(asked, vec![hg("/srv/r1", &["branch"])]);

    let mut asked = Vec::new();
    let got =
        drive(|replies| r.get_current_branch(replies), vec![failed("abort: gone")], &mut asked);
    assert_eq!(got, failed("abort: gone"));
}

#[test]
fn all_branches_are_the_first_words_of_the_listing() {
    let r = record("/srv/r1", "default");
    let mut asked = Vec::new();
    let listing = "default                      412:0123456789ab\nstable                        77:aaaaaaaaaaaa (inactive)\n\n";
    let got = drive(|replies| r.get_all_branches(replies), vec![ok(listing)], &mut asked);
    assert_eq!(got, Ok(texts(&["default", "stable"])));
    assert_eq!(asked, vec![hg("/srv/r1", &["branches"])]);

    let mut asked = Vec::new();
    let got = drive(|replies| r.get_all_branches(replies), vec![ok("")], &mut asked);
    assert_eq!(got, Ok(Vec::new()));

    let mut asked = Vec::new();
    let got = drive(|replies| r.get_all_branches(replies), vec![failed("abort")], &mut asked);
    assert_eq!(got, failed("abort").map(|_| Vec::new()));
}

#[test]
fn the_commit_type_is_the_phase_capitalised() {
    let r = record("/srv/r1", "default");
    let mut asked = Vec::new();
    let got = drive(|replies| r.get_commit_type(replies), vec![ok("draft")], &mut asked);
    assert_eq!(got, ok("Draft"));
    assert_eq!(asked, vec![hg("/srv/r1", &["log", "-r", ".", "--template", "{phase}"])]);

    let mut asked = Vec::new();
    assert_eq!(drive(|replies| r.get_commit_type(replies), vec![ok("")], &mut asked), ok(""));
    let mut asked = Vec::new();
    assert_eq!(
        drive(|replies| r.get_commit_type(replies), vec![failed("abort")], &mut asked),
        failed("abort")
    );
}

#[test]
fn each_plain_verb_runs_its_own_command() {
    let r = record("/srv/r1", "default");

    let mut asked = Vec::new();
    assert_eq!(drive(|p| r.pull_all_branches(p), vec![ok("pulled")], &mut asked), ok("pulled"));
    assert_eq!(asked, vec![hg("/srv/r1", &["pull"])]);

    let mut asked = Vec::new();
    assert_eq!(drive(|p| r.pull_current_branch(p), vec![ok("pulled")], &mut asked), ok("pulled"));
    assert_eq!(asked, vec![hg("/srv/r1", &["pull", "-b", "default"])]);

    let mut asked = Vec::new();
    assert_eq!(drive(|p| r.update_to_latest(p), vec![ok("1 files updated")], &mut asked), ok("1 files updated"));
    assert_eq!(asked, vec![hg("/srv/r1", &["update"])]);

    let mut asked = Vec::new();
    assert_eq!(drive(|p| r.update_branch("stable", p), vec![failed("abort: unknown revision")], &mut asked), failed("abort: unknown revision"));
    assert_eq!(asked, vec![hg("/srv/r1", &["update", "stable"])]);

    let mut asked = Vec::new();
    assert_eq!(drive(|p| r.revert_changes(p), vec![ok("")], &mut asked), ok(""));
    assert_eq!(asked, vec![hg("/srv/r1", &["revert", "--all"])]);

    let mut asked = Vec::new();
    assert_eq!(drive(|p| r.commit("fix the build", p), vec![ok("")], &mut asked), ok(""));
    assert_eq!(asked, vec![hg("/srv/r1", &["commit", "-m", "fix the build"])]);

    let mut asked = Vec::new();
    assert_eq!(drive(|p| r.update_to_last_public(p), vec![ok("")], &mut asked), ok(""));
    assert_eq!(
        asked,
        vec![hg("/srv/r1", &["update", "-r", "last(public() and branch(\"default\"))"])]
    );
}

#[test]
fn pull_current_branch_without_a_known_branch_fails_and_runs_nothing() {
    for branch in ["ERROR", "ERROR: no branch"] {
        let r = record("/srv/r1", branch);
        let mut asked = Vec::new();
        let got = drive(|replies| r.pull_current_branch(replies), Vec::new(), &mut asked);
        assert_eq!(
            got,
            Err(HgError::PreconditionUnmet("Cannot pull: current branch unknown".to_string()))
        );
        assert_eq!(asked.len(), 0);
        let stray = vec![ok("pulled")];
        assert_eq!(
            r.pull_current_branch(&stray),
            Step::Done(Err(HgError::PreconditionUnmet(
                "Cannot pull: current branch unknown".to_string()
            )))
        );
    }
}

#[test]
fn pull_current_branch_on_a_record_never_refreshed_fails_and_runs_nothing() {
    let r = Repository::new("/srv/r1".to_string());
    assert!(!r.branch_known());
    let mut asked = Vec::new();
    let got = drive(|replies| r.pull_current_branch(replies), Vec::new(), &mut asked);
    assert_eq!(
        got,
        Err(HgError::PreconditionUnmet("Cannot pull: current branch unknown".to_string()))
    );
    assert_eq!(asked.len(), 0);
    let stray = vec![ok("pulled")];
    assert_eq!(
        r.pull_current_branch(&stray),
        Step::Done(Err(HgError::PreconditionUnmet(
            "Cannot pull: current branch unknown".to_string()
        )))
    );
}

#[test]
fn a_branch_is_known_once_it_is_read_and_no_marker() {
    assert!(record("/srv/r1", "default").branch_known());
    assert!(record("/srv/r1", "fix-ERROR").branch_known());
    assert!(record("/srv/r1", "error").branch_known());
    assert!(!record("/srv/r1", "").branch_known());
    assert!(!record("/srv/r1", "ERROR").branch_known());
    assert!(!record("/srv/r1", "ERROR: no branch").branch_known());

    assert!(record("/srv/r1", "ERROR").branch_failed());
    assert!(record("/srv/r1", "ERROR: no branch").branch_failed());
    assert!(!record("/srv/r1", "").branch_failed());
    assert!(!record("/srv/r1", "fix-ERROR").branch_failed());

    let r = record("/srv/r1", "fix-ERROR");
    let mut asked = Vec::new();
    assert_eq!(drive(|p| r.pull_current_branch(p), vec![ok("")], &mut asked), ok(""));
    assert_eq!(asked, vec![hg("/srv/r1", &["pull", "-b", "fix-ERROR"])]);
}

#[test]
fn update_to_last_public_passes_on_a_branch_that_is_no_marker() {
    let r = Repository::new("/srv/r1".to_string());
    let mut asked = Vec::new();
    let got = drive(|p| r.update_to_last_public(p), vec![failed("abort: empty query")], &mut asked);
    assert_eq!(got, failed("abort: empty query"));
    assert_eq!(asked, vec![hg("/srv/r1", &["update", "-r", "last(public() and branch(\"\"))"])]);
}

#[test]
fn update_to_last_public_without_a_known_branch_fails_and_runs_nothing() {
    let r = record("/srv/r1", "ERROR");
    let mut asked = Vec::new();
    let got = drive(|replies| r.update_to_last_public(replies), Vec::new(), &mut asked);
    assert_eq!(got, Err(HgError::PreconditionUnmet("Unknown branch".to_string())));
    assert_eq!(asked.len(), 0);
}

#[test]
fn the_status_is_the_identifier_and_whether_changes_are_pending() {
    let r = record("/srv/r1", "default");

    let mut asked = Vec::new();
    let got = drive(|p| r.get_repo_status(p), vec![ok("412"), ok("M a.txt")], &mut asked);
    assert_eq!(got, Ok(("412".to_string(), true)));
    assert_eq!(asked, vec![hg("/srv/r1", &["id", "-n"]), hg("/srv/r1", &["status", "-q"])]);

    let mut asked = Vec::new();
    let got = drive(|p| r.get_repo_status(p), vec![ok("412+"), ok("")], &mut asked);
    assert_eq!(got, Ok(("412+".to_string(), false)));

    let mut asked = Vec::new();
    let got = drive(|p| r.get_repo_status(p), vec![ok("7"), failed("abort")], &mut asked);
    assert_eq!(got, Ok(("7".to_string(), false)));
    assert_eq!(asked.len(), 2);
}

#[test]
fn a_failed_identifier_query_ends_the_status_verb() {
    let r = record("/srv/r1", "default");
    let mut asked = Vec::new();
    let got = drive(|p| r.get_repo_status(p), vec![failed("abort: no repo")], &mut asked);
    assert_eq!(got, Err(HgError::CommandFailed("abort: no repo".to_string())));
    assert_eq!(asked, vec![hg("/srv/r1", &["id", "-n"])]);
}

#[test]
fn refresh_replaces_the_four_derived_fields_and_keeps_the_rest() {
    let mut r = record("/srv/r1", "old");
    r.revision = "1".to_string();
    r.commit_type = "Public".to_string();
    r.last_status = "Refreshing...".to_string();
    let mut asked = Vec::new();
    let mut replies: Vec<Reply> = Vec::new();
    let prepared = vec![ok("feature"), ok("413"), ok("M a.txt"), ok("draft")];
    for reply in prepared {
        let before = r.clone();
        match r.refresh(&replies) {
            Step::Run(inv) => asked.push(inv),
            Step::Done(()) => panic!("done too early"),
        }
        assert_eq!(r, before);
        replies.push(reply);
    }
    assert_eq!(r.refresh(&replies), Step::Done(()));
    assert_eq!(
        asked,
        vec![
            hg("/srv/r1", &["branch"]),
            hg("/srv/r1", &["id", "-n"]),
            hg("/srv/r1", &["status", "-q"]),
            hg("/srv/r1", &["log", "-r", ".", "--template", "{phase}"]),
        ]
    );
    assert_eq!(r.path, "/srv/r1");
    assert_eq!(r.current_branch, "feature");
    assert_eq!(r.revision, "413");
    assert!(r.modified);
    assert_eq!(r.commit_type, "Draft");
    assert_eq!(r.last_status, "Refreshing...");
}

#[test]
fn refresh_marks_each_query_that_failed_and_never_fails() {
    let mut r = record("/srv/r1", "default");
    r.modified = true;
    let mut asked = Vec::new();
    drive(
        |p| r.refresh(p),
        vec![failed("abort"), failed("abort"), failed("abort")],
        &mut asked,
    );
    assert_eq!(asked.len(), 3);
    assert_eq!(asked[2], hg("/srv/r1", &["log", "-r", ".", "--template", "{phase}"]));
    assert_eq!(r.current_branch, "ERROR");
    assert_eq!(r.revision, "?");
    assert!(!r.modified);
    assert_eq!(r.commit_type, "Unknown");

    let mut r = record("/srv/r2", "");
    let mut asked = Vec::new();
    drive(|p| r.refresh(p), vec![ok("default"), ok("9"), failed("abort"), ok("public")], &mut asked);
    assert_eq!(asked.len(), 4);
    assert_eq!(r.current_branch, "default");
    assert_eq!(r.revision, "9");
    assert!(!r.modified);
    assert_eq!(r.commit_type, "Public");

    let mut r = record("/srv/r3", "");
    let mut asked = Vec::new();
    drive(|p| r.refresh(p), vec![failed("x"), ok("10"), ok(""), failed("y")], &mut asked);
    assert_eq!(r.current_branch, "ERROR");
    assert_eq!(r.revision, "10");
    assert!(!r.modified);
    assert_eq!(r.commit_type, "Unknown");
}

#[test]
fn a_row_shows_the_six_columns_between_tabs() {
    let mut r = record("/srv/work/r1", "default");
    r.revision = "412".to_string();
    r.modified = true;
    r.commit_type = "Draft".to_string();
    r.last_status = "Success".to_string();
    assert_eq!(r.row("/srv/work/r1"), "/srv/work/r1\tdefault\t412\tYes\tDraft\tSuccess");
    r.modified = false;
    assert_eq!(r.row("r1"), "r1\tdefault\t412\tNo\tDraft\tSuccess");
    assert_eq!(Repository::new("/p".to_string()).row(""), "\t\t\tNo\t\t");
}

#[test]
fn the_rows_of_a_list_follow_the_display_preference() {
    let mut a = record("/srv/work/r1", "default");
    a.revision = "1".to_string();
    let b = record("/srv/work/r2", "stable");
    let repos = vec![a, b];
    let short = texts(&["r1"]);
    assert_eq!(
        update_browser(&repos, &short, true),
        texts(&["/srv/work/r1\tdefault\t1\tNo\t\t", "/srv/work/r2\tstable\t\tNo\t\t"])
    );
    assert_eq!(
        update_browser(&repos, &short, false),
        texts(&["r1\tdefault\t1\tNo\t\t", "\tstable\t\tNo\t\t"])
    );
    assert_eq!(update_browser(&[], &short, false), Vec::<String>::new());
}

#[test]
fn the_copied_text_is_one_path_on_each_line() {
    let repos = vec![record("/srv/r1", ""), record("/srv/r2", ""), record("/srv/r3", "")];
    assert_eq!(copy_text(&repos), "/srv/r1\n/srv/r2\n/srv/r3");
    assert_eq!(copy_text(&repos[..1]), "/srv/r1");
    assert_eq!(copy_text(&[]), "");
    assert_eq!(copy_records(&repos), repos);
}
