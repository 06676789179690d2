use winter_term::input::PaneId;
use winter_term::jobs::{
    is_skipped_dir, run, CommandRequest, Finished, JobReply, Jobs, Node, Ran, SearchRequest,
    SearchResult, Work, MAX_IN_FLIGHT, SEARCH_MAX_HITS,
};

fn file(name: &str, text: &str) -> (String, Node) {
    (name.to_string(), Node::File { bytes: text.len() as u64, text: Some(text.to_string()) })
}

fn dir(name: &str, entries: Vec<(String, Node)>) -> (String, Node) {
    (name.to_string(), Node::Dir(entries))
}

fn total(bytes: u64) -> JobReply {
    JobReply::DirSize { bytes, path: "/tree".to_string() }
}

fn search(query: &str, entries: Vec<(String, Node)>) -> SearchResult {
    let request = SearchRequest { query: query.to_string(), root: "/tree".to_string() };
    let mut jobs = Jobs::new();
    let id = jobs.spawn(PaneId(1)).expect("room for a job");
    let reply = run(Work::Search(request, entries));
    let mut replies = jobs.drain(vec![Finished { id, pane: PaneId(1), reply }]);
    assert_eq!(replies.len(), 1);
    match replies.remove(0) {
        (_, JobReply::Search(found)) => found,
        (_, other) => panic!("expected a search answer, got {other:?}"),
    }
}

#[test]
fn test_a_directory_walk_totals_what_is_under_it() {
    let tree = vec![
        ("a.bin".to_string(), Node::File { bytes: 100, text: None }),
        dir("sub", vec![("b.bin".to_string(), Node::File { bytes: 50, text: None })]),
    ];
    let mut jobs = Jobs::new();
    let pane = PaneId(7);
    let id = jobs.spawn(pane).expect("room for a job");
    assert!(jobs.is_busy());

    let reply = run(Work::DirSize("/tree".to_string(), tree));
    let replies = jobs.drain(vec![Finished { id, pane, reply }]);
    assert_eq!(replies.len(), 1, "the walk reported back");
    let (got_pane, reply) = &replies[0];
    assert_eq!(*got_pane, pane, "answers go to whoever asked");
    let JobReply::DirSize { bytes, .. } = reply else {
        panic!("expected a directory total");
    };
    assert_eq!(*bytes, 150, "nested files count toward the total");
    assert!(!jobs.is_busy(), "and the job is no longer running");
}

#[test]
fn test_a_cancelled_job_is_not_reported_back() {
    let mut jobs = Jobs::new();
    let pane = PaneId(1);
    let id = jobs.spawn(pane).expect("room for a job");
    assert_eq!(jobs.cancel_for(pane), [id]);

    assert!(!jobs.is_busy(), "a cancelled job is no longer waited on");
    let replies = jobs.drain(vec![Finished { id, pane, reply: total(0) }]);
    assert!(replies.is_empty(), "its answer is dropped");
}

#[test]
fn test_cancelling_one_pane_leaves_another_pane_running() {
    let mut jobs = Jobs::new();
    let first = jobs.spawn(PaneId(1)).expect("room for a job");
    let second = jobs.spawn(PaneId(2)).expect("room for a job");

    jobs.cancel_for(PaneId(1));
    let replies = jobs.drain(vec![
        Finished { id: first, pane: PaneId(1), reply: total(0) },
        Finished { id: second, pane: PaneId(2), reply: total(0) },
    ]);
    assert_eq!(replies.len(), 1);
    assert_eq!(replies[0].0, PaneId(2));
}

#[test]
fn test_requests_past_the_limit_are_dropped_rather_than_queued() {
    let mut jobs = Jobs::new();
    for n in 0..MAX_IN_FLIGHT + 5 {
        assert_eq!(jobs.spawn(PaneId(1)).is_some(), n < MAX_IN_FLIGHT);
    }
    assert!(jobs.in_flight() <= MAX_IN_FLIGHT);
}

#[test]
fn test_a_search_reports_the_lines_that_hold_the_query() {
    let found = search(
        "needle",
        vec![file("a.txt", "first line\nholds NEEDLE here\n"), file("b.txt", "nothing\n")],
    );
    assert_eq!(found.hits.len(), 1, "one line matched: {:?}", found.hits);
    assert_eq!(found.hits[0].line, 2, "line numbers count from one");
    assert_eq!(found.hits[0].text, "holds NEEDLE here");
    assert!(!found.truncated);
}

#[test]
fn test_a_search_stays_out_of_build_output_and_repository_internals() {
    let found = search(
        "needle",
        vec![
            dir(".git", vec![file("c.txt", "needle\n")]),
            dir("target", vec![file("c.txt", "needle\n")]),
            file("d.txt", "needle\n"),
        ],
    );
    let paths: Vec<String> = found.hits.iter().map(|hit| hit.path.clone()).collect();
    assert_eq!(paths.len(), 1, "only the tracked file matched: {paths:?}");
    assert!(paths[0].ends_with("d.txt"), "{paths:?}");
}

#[test]
fn test_a_search_stops_at_its_cap_and_says_the_list_is_partial() {
    let lines = "needle\n".repeat(SEARCH_MAX_HITS + 20);
    let found = search("needle", vec![file("many.txt", &lines)]);
    assert_eq!(found.hits.len(), SEARCH_MAX_HITS);
    assert!(found.truncated, "a capped list has to say it was cut short");
}

#[test]
fn test_an_empty_query_finds_nothing_rather_than_everything() {
    let found = search("", vec![file("a.txt", "anything\n")]);
    assert!(found.hits.is_empty());
}

#[test]
fn an_answer_is_taken_once_only() {
    let mut jobs = Jobs::new();
    let id = jobs.spawn(PaneId(4)).expect("room for a job");
    let done = || Finished { id, pane: PaneId(4), reply: total(3) };
    assert_eq!(jobs.drain(vec![done(), done()]).len(), 1);
    assert!(jobs.drain(vec![done()]).is_empty());
}

#[test]
fn directories_that_are_not_searched() {
    for name in [".git", ".hg", ".svn", "node_modules", "target"] {
        assert!(is_skipped_dir(name), "{name}");
    }
    assert!(!is_skipped_dir("src"));
    assert!(!is_skipped_dir("targets"));
}

#[test]
fn a_link_counts_for_itself() {
    let tree = vec![
        ("real".to_string(), Node::File { bytes: 10, text: None }),
        ("link".to_string(), Node::Link { bytes: 4 }),
    ];
    let JobReply::DirSize { bytes, path } = run(Work::DirSize("/tree".to_string(), tree)) else {
        panic!("expected a directory total");
    };
    assert_eq!(path, "/tree");
    assert_eq!(bytes, 14);
}

#[test]
fn files_that_cannot_be_read_are_left_out() {
    let files = vec![
        ("/a".to_string(), Some("one".to_string())),
        ("/b".to_string(), None),
        ("/c".to_string(), Some("three".to_string())),
    ];
    let JobReply::Files(texts) = run(Work::ReadFiles(files)) else {
        panic!("expected files");
    };
    assert_eq!(
        texts,
        [("/a".to_string(), "one".to_string()), ("/c".to_string(), "three".to_string())]
    );
}

#[test]
fn a_command_answers_with_what_it_wrote_or_why_it_did_not_run() {
    let request = || CommandRequest {
        args: vec!["status".to_string()],
        cwd: "/".to_string(),
        program: "git".to_string(),
        stdin: None,
        tag: "status".to_string(),
    };
    let ran = Ran { code: Some(1), stderr: "oops".to_string(), stdout: "out".to_string() };
    let JobReply::Command(output) = run(Work::Command(request(), Ok(ran))) else {
        panic!("expected a command's answer");
    };
    assert_eq!(output.code, Some(1));
    assert_eq!((output.stdout.as_str(), output.stderr.as_str()), ("out", "oops"));
    assert_eq!(output.tag, "status");

    let JobReply::Command(output) = run(Work::Command(request(), Err("not found".to_string())))
    else {
        panic!("expected a command's answer");
    };
    assert_eq!(output.code, None);
    assert_eq!(output.stderr, "not found");
    assert_eq!(output.stdout, "");
}

#[test]
fn a_search_from_the_root_names_files_below_it() {
    let entries = vec![file("a.rs", "needle"), dir("src", vec![file("b.rs", "needle")])];
    let request = SearchRequest { query: "needle".to_string(), root: "/".to_string() };
    match run(Work::Search(request, entries)) {
        JobReply::Search(found) => {
            let paths: Vec<&str> = found.hits.iter().map(|hit| hit.path.as_str()).collect();
            assert_eq!(paths, ["/a.rs", "/src/b.rs"]);
        }
        other => panic!("expected a search answer, got {other:?}"),
    }
}
