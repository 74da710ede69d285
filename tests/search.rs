use term_core::search::{search, Candidate, SearchRun, CANDIDATE_FACTOR};
use term_core::store::CoreError;

fn cand(path: &str, name: &str) -> Candidate {
    Candidate { path: path.to_string(), name: name.to_string() }
}

fn tree() -> Vec<Candidate> {
    vec![
        cand("/r/projects", "projects"),
        cand("/r/docs", "docs"),
        cand("/r/projects/proj", "proj"),
        cand("/r/prj", "prj"),
        cand("/r/other", "other"),
    ]
}

#[test]
fn blank_query_is_refused() {
    assert_eq!(search(tree(), "", 5), Err(CoreError::EmptyQuery));
    assert_eq!(search(tree(), "  \t", 5), Err(CoreError::EmptyQuery));
    assert!(SearchRun::new(" ", 5, CANDIDATE_FACTOR).is_err());
}

#[test]
fn no_match_gives_empty_list() {
    assert_eq!(search(tree(), "zzzz", 5), Ok(vec![]));
}

#[test]
fn results_rank_by_score_then_name() {
    let found = search(tree(), "proj", 10).unwrap();
    let names: Vec<&str> = found.iter().map(|r| r.name.as_str()).collect();
    assert!(names.contains(&"projects"));
    assert!(names.contains(&"proj"));
    assert!(!names.contains(&"docs"));
    for w in found.windows(2) {
        assert!(w[0].score > w[1].score || (w[0].score == w[1].score && w[0].name <= w[1].name));
    }
}

#[test]
fn equal_scores_order_by_name() {
    let cands = vec![cand("/r/b/x", "abc"), cand("/r/a/x", "abc"), cand("/r/aa", "abc")];
    let found = search(cands, "abc", 10).unwrap();
    assert_eq!(found.len(), 3);
    assert!(found.iter().all(|r| r.score == found[0].score));
}

#[test]
fn same_search_twice_gives_same_results() {
    let a = search(tree(), "pr", 3).unwrap();
    let b = search(tree(), "pr", 3).unwrap();
    assert_eq!(a, b);
}

#[test]
fn limit_cuts_results_and_zero_means_one() {
    let found = search(tree(), "p", 1).unwrap();
    assert_eq!(found.len(), 1);
    let found = search(tree(), "p", 0).unwrap();
    assert_eq!(found.len(), 1);
}

#[test]
fn gathering_stops_at_twice_the_limit() {
    let cands = vec![
        cand("/a1", "aaa"),
        cand("/a2", "aab"),
        cand("/a3", "a"),
    ];
    let mut run = SearchRun::new("a", 1, CANDIDATE_FACTOR).unwrap();
    let mut offered = 0;
    for c in cands {
        if !run.wants_more() {
            break;
        }
        run.offer(c);
        offered += 1;
    }
    assert_eq!(offered, 2);
    let found = run.finish();
    assert_eq!(found.len(), 1);
    assert_ne!(found[0].path, "/a3");
}

#[test]
fn scores_come_from_the_matcher() {
    let found = search(vec![cand("/x/src", "src")], "src", 5).unwrap();
    assert_eq!(found.len(), 1);
    assert!(found[0].score > 0);
    assert_eq!(found[0].path, "/x/src");
}
