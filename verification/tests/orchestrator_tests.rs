use kv_fetch::listing::parse_key_listing;
use kv_fetch::orchestrator::select_keys;
use kv_fetch::orchestrator::Command;
use kv_fetch::orchestrator::Event;
use kv_fetch::orchestrator::Run;
use kv_fetch::orchestrator::RunError;

const LISTING: &str = r#"{"result":[{"name":"alpha-1"},{"name":"beta-2"},{"name":"alpha-3"}]}"#;

/// Drives a whole run against canned responses: every fetch returns the
/// value given by `value_of`, every write and report succeeds. Returns the
/// (path, content) pairs written, in order.
fn drive(filter: &str, listing: &str, value_of: impl Fn(&str) -> String) -> Vec<(String, String)> {
    let mut run = Run::new(filter.to_string());
    let mut command = run.begin();
    let mut writes: Vec<(String, String)> = Vec::new();
    let mut current: Option<String> = None;
    loop {
        command = match command {
            Command::FetchListing => run.on_event(Event::ListingFetched(listing.to_string())),
            Command::EnsureDir => run.on_event(Event::DirReady),
            Command::FetchValue(key) => {
                let body = value_of(&key);
                current = Some(key);
                run.on_event(Event::ValueFetched(body))
            },
            Command::WriteFile(path, content) => {
                writes.push((path, content));
                run.on_event(Event::WriteDone)
            },
            Command::Report(key) => {
                assert_eq!(Some(key), current);
                run.on_event(Event::Reported)
            },
            Command::Finish => break,
            Command::Fail(_) => panic!("no step of this run may fail"),
        };
    }
    writes
}

#[test]
fn filter_selects_exactly_the_matching_keys() {
    let writes = drive("alpha", LISTING, |k| format!("value of {}", k));
    let paths: Vec<&str> = writes.iter().map(|w| w.0.as_str()).collect();
    assert_eq!(paths, vec!["kv-data/alpha-1.json", "kv-data/alpha-3.json"]);
    assert_eq!(writes[0].1, "value of alpha-1");
    assert_eq!(writes[1].1, "value of alpha-3");
}

#[test]
fn empty_filter_selects_every_key() {
    let writes = drive("", LISTING, |k| k.to_string());
    let paths: Vec<&str> = writes.iter().map(|w| w.0.as_str()).collect();
    assert_eq!(
        paths,
        vec!["kv-data/alpha-1.json", "kv-data/beta-2.json", "kv-data/alpha-3.json"]
    );
}

#[test]
fn unmatched_filter_writes_nothing() {
    let writes = drive("gamma", LISTING, |k| k.to_string());
    assert!(writes.is_empty());
}

#[test]
fn identical_runs_write_identical_files() {
    let first = drive("alpha", LISTING, |k| format!("v:{}", k));
    let second = drive("alpha", LISTING, |k| format!("v:{}", k));
    assert_eq!(first, second);
}

#[test]
fn an_error_body_is_written_like_a_value() {
    let writes = drive("beta", LISTING, |_| r#"{"error":"not found"}"#.to_string());
    assert_eq!(writes.len(), 1);
    assert_eq!(writes[0].0, "kv-data/beta-2.json");
    assert_eq!(writes[0].1, r#"{"error":"not found"}"#);
}

#[test]
fn an_existing_directory_is_success() {
    // The world maps "already there" and "freshly created" both to DirReady;
    // the run proceeds and finishes.
    let mut run = Run::new("".to_string());
    let c = run.begin();
    assert!(matches!(c, Command::FetchListing));
    let c = run.on_event(Event::ListingFetched(r#"{"result":[]}"#.to_string()));
    assert!(matches!(c, Command::EnsureDir));
    let c = run.on_event(Event::DirReady);
    assert!(matches!(c, Command::Finish));
}

#[test]
fn listing_transport_failure_aborts_before_any_output() {
    let mut run = Run::new("".to_string());
    let c = run.begin();
    assert!(matches!(c, Command::FetchListing));
    let c = run.on_event(Event::ListingFailed);
    assert!(matches!(c, Command::Fail(RunError::Transport)));
}

#[test]
fn undecodable_listing_aborts_before_any_output() {
    let mut run = Run::new("".to_string());
    let _ = run.begin();
    let c = run.on_event(Event::ListingFetched("not json".to_string()));
    assert!(matches!(c, Command::Fail(RunError::Decode)));
}

#[test]
fn directory_failure_aborts() {
    let mut run = Run::new("".to_string());
    let _ = run.begin();
    let _ = run.on_event(Event::ListingFetched(LISTING.to_string()));
    let c = run.on_event(Event::DirFailed);
    assert!(matches!(c, Command::Fail(RunError::Filesystem)));
}

#[test]
fn fetch_failure_aborts_mid_run() {
    let mut run = Run::new("".to_string());
    let _ = run.begin();
    let _ = run.on_event(Event::ListingFetched(LISTING.to_string()));
    let c = run.on_event(Event::DirReady);
    assert!(matches!(c, Command::FetchValue(ref k) if k == "alpha-1"));
    let c = run.on_event(Event::ValueFailed);
    assert!(matches!(c, Command::Fail(RunError::Transport)));
}

#[test]
fn write_failure_aborts_mid_run() {
    let mut run = Run::new("".to_string());
    let _ = run.begin();
    let _ = run.on_event(Event::ListingFetched(LISTING.to_string()));
    let _ = run.on_event(Event::DirReady);
    let c = run.on_event(Event::ValueFetched("v".to_string()));
    assert!(matches!(c, Command::WriteFile(ref p, ref v) if p == "kv-data/alpha-1.json" && v == "v"));
    let c = run.on_event(Event::WriteFailed);
    assert!(matches!(c, Command::Fail(RunError::Filesystem)));
}

#[test]
fn each_saved_key_is_reported_once() {
    let mut run = Run::new("alpha".to_string());
    let _ = run.begin();
    let _ = run.on_event(Event::ListingFetched(LISTING.to_string()));
    let _ = run.on_event(Event::DirReady);
    let _ = run.on_event(Event::ValueFetched("v1".to_string()));
    let c = run.on_event(Event::WriteDone);
    assert!(matches!(c, Command::Report(ref k) if k == "alpha-1"));
    let c = run.on_event(Event::Reported);
    assert!(matches!(c, Command::FetchValue(ref k) if k == "alpha-3"));
    let _ = run.on_event(Event::ValueFetched("v3".to_string()));
    let c = run.on_event(Event::WriteDone);
    assert!(matches!(c, Command::Report(ref k) if k == "alpha-3"));
    let c = run.on_event(Event::Reported);
    assert!(matches!(c, Command::Finish));
}

#[test]
fn select_keys_filters_by_substring_in_order() {
    let entries = parse_key_listing(LISTING).expect("the listing decodes");
    let selected = select_keys(&entries, "alpha");
    assert_eq!(selected, vec!["alpha-1".to_string(), "alpha-3".to_string()]);
    let all = select_keys(&entries, "");
    assert_eq!(all.len(), 3);
    let none = select_keys(&entries, "ALPHA");
    assert!(none.is_empty());
}
