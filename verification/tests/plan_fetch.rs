use thubook::plan::{
    aggregate_success, plan_fetches, resolve_fetch, DownloadTask, FetchError, FetchOutcome,
};

fn task(chapters: Vec<Vec<&str>>) -> DownloadTask {
    DownloadTask {
        book_real_id: String::from("book"),
        botu_read_kernel: String::from("session-credential"),
        page_urls: chapters
            .into_iter()
            .map(|c| c.into_iter().map(String::from).collect())
            .collect(),
    }
}

#[test]
fn plan_names_every_slot_in_manifest_order() {
    let t = task(vec![vec!["a/p0.jpg", "a/p1.jpg"], vec!["b/q0.png", "b/q1.png"]]);
    let jobs = plan_fetches(&t, &Vec::new());
    let names: Vec<&str> = jobs.iter().map(|j| j.filename.as_str()).collect();
    assert_eq!(names, vec!["0_0.jpg", "0_1.jpg", "1_0.png", "1_1.png"]);
    assert_eq!(jobs[2].url, "b/q0.png");
    assert_eq!((jobs[3].id.chapter, jobs[3].id.page), (1, 1));
}

#[test]
fn plan_skips_existing_destinations() {
    let t = task(vec![vec!["a/p0.jpg", "a/p1.jpg"], vec!["b/q0.jpg", "b/q1.jpg"]]);
    let existing = vec![String::from("0_1.jpg"), String::from("1_0.jpg")];
    let jobs = plan_fetches(&t, &existing);
    let names: Vec<&str> = jobs.iter().map(|j| j.filename.as_str()).collect();
    assert_eq!(names, vec!["0_0.jpg", "1_1.jpg"]);
}

#[test]
fn one_failed_fetch_fails_the_run_and_only_it_is_retried() {
    let t = task(vec![vec!["a/p0.jpg", "a/p1.jpg"], vec!["b/q0.jpg", "b/q1.jpg"]]);
    let jobs = plan_fetches(&t, &Vec::new());
    assert_eq!(jobs.len(), 4);

    // One of the four fetches fails; the other three commit their files.
    let outcomes = vec![
        FetchOutcome::Fetched,
        FetchOutcome::NetworkFailure,
        FetchOutcome::Fetched,
        FetchOutcome::Fetched,
    ];
    assert!(!aggregate_success(&outcomes));
    let existing: Vec<String> = jobs
        .iter()
        .zip(outcomes.iter())
        .filter(|(_, o)| matches!(o, FetchOutcome::Fetched))
        .map(|(j, _)| j.filename.clone())
        .collect();
    assert_eq!(existing.len(), 3);

    // A re-run issues exactly one new fetch: the previously failed slot.
    let retry = plan_fetches(&t, &existing);
    assert_eq!(retry.len(), 1);
    assert_eq!(retry[0].filename, "0_1.jpg");
}

#[test]
fn cancellation_resolves_to_the_cancelled_outcome() {
    assert_eq!(resolve_fetch(true, Ok(())), FetchOutcome::Cancelled);
    assert_eq!(resolve_fetch(true, Err(FetchError::Network)), FetchOutcome::Cancelled);
    assert_eq!(resolve_fetch(false, Ok(())), FetchOutcome::Fetched);
    assert_eq!(resolve_fetch(false, Err(FetchError::Network)), FetchOutcome::NetworkFailure);
    assert_eq!(resolve_fetch(false, Err(FetchError::Io)), FetchOutcome::IoFailure);
}

#[test]
fn one_completion_before_cancellation_still_fails_the_run() {
    let outcomes = vec![
        FetchOutcome::Fetched,
        FetchOutcome::Cancelled,
        FetchOutcome::Cancelled,
        FetchOutcome::Cancelled,
    ];
    assert!(!aggregate_success(&outcomes));
    assert_eq!(
        outcomes.iter().filter(|o| matches!(o, FetchOutcome::Cancelled)).count(),
        3,
    );
    assert_eq!(
        outcomes.iter().filter(|o| matches!(o, FetchOutcome::NetworkFailure)).count(),
        0,
    );
}

#[test]
fn all_fetched_means_success() {
    let outcomes = vec![FetchOutcome::Fetched, FetchOutcome::Fetched];
    assert!(aggregate_success(&outcomes));
    assert!(aggregate_success(&Vec::new()));
    assert!(!aggregate_success(&vec![FetchOutcome::IoFailure]));
}
