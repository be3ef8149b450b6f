use torrent_scraper::ledger::{completed_path_of, marker_path_of, Ledger};
use torrent_scraper::pipeline::{download_link_of, retain_pending, run};
use torrent_scraper::target::Target;

const PAGE: &str = r#"
  <table>
    <td><a href="/view/item1" title="[crap] hello - 01 [720p].mkv">content1</a></td>
    <td><a href="/view/item2" title="[crap] hello - 02 [720p].mkv">content2</a></td>
    <td><a href="/view/item4" title="[crap] banned - 01 [720p].mkv">content3</a></td>
    <td><a href="/view/item5" title="unknown pattern">content3</a></td>
  </table>
"#;

fn target(href: &str, title: &str) -> Target {
    Target { href: href.to_string(), title: title.to_string() }
}

fn banned() -> Vec<String> {
    vec!["banned".to_string()]
}

#[test]
fn paths_are_built_from_the_title_as_it_is() {
    assert_eq!(completed_path_of("[a] b - 1 [2p].mkv"), "downloads/[a] b - 1 [2p].mkv.torrent");
    assert_eq!(marker_path_of("[a] b - 1 [2p].mkv"), "downloads/[a] b - 1 [2p].mkv.torrent.added");
    assert_eq!(completed_path_of(""), "downloads/.torrent");
    assert_eq!(completed_path_of("a/b"), "downloads/a/b.torrent");
}

#[test]
fn download_link_joins_host_link_and_suffix() {
    let t = target("/view/item1", "title");
    assert_eq!(download_link_of("example.org", &t), "example.org/view/item1/torrent");
    assert_eq!(download_link_of("", &target("", "t")), "/torrent");
}

#[test]
fn ledger_knows_what_was_recorded() {
    let mut ledger = Ledger::new();
    assert!(!ledger.knows(&"downloads/a.torrent".to_string()));
    ledger.record("downloads/a.torrent".to_string());
    assert!(ledger.knows(&"downloads/a.torrent".to_string()));
    assert!(!ledger.knows(&"downloads/a.torrent.added".to_string()));
    assert!(!ledger.knows(&"downloads/b.torrent".to_string()));
}

#[test]
fn title_is_handled_by_download_or_by_marker() {
    let mut ledger = Ledger::new();
    assert!(!ledger.already_downloaded("a"));
    ledger.record("downloads/a.torrent".to_string());
    ledger.record("downloads/b.torrent.added".to_string());
    ledger.record("downloads/c".to_string());
    ledger.record("d.torrent".to_string());
    assert!(ledger.already_downloaded("a"));
    assert!(ledger.already_downloaded("b"));
    assert!(!ledger.already_downloaded("c"));
    assert!(!ledger.already_downloaded("d"));
    assert!(!ledger.filter_existing(&target("/a", "a")));
    assert!(ledger.filter_existing(&target("/c", "c")));
}

#[test]
fn retain_pending_drops_handled_titles_in_order() {
    let mut ledger = Ledger::new();
    ledger.record(marker_path_of("two"));
    let found = vec![target("/1", "one"), target("/2", "two"), target("/3", "three")];
    assert_eq!(retain_pending(&found, &ledger), vec![target("/1", "one"), target("/3", "three")]);
}

#[test]
fn run_plans_valid_unhandled_targets() {
    let ledger = Ledger::new();
    assert_eq!(
        run(banned(), PAGE, &ledger),
        vec![
            target("/view/item1", "[crap] hello - 01 [720p].mkv"),
            target("/view/item2", "[crap] hello - 02 [720p].mkv"),
        ]
    );
}

#[test]
fn run_leaves_out_a_title_whose_download_exists() {
    let mut ledger = Ledger::new();
    ledger.record("downloads/[crap] hello - 01 [720p].mkv.torrent".to_string());
    assert_eq!(
        run(banned(), PAGE, &ledger),
        vec![target("/view/item2", "[crap] hello - 02 [720p].mkv")]
    );
}

#[test]
fn run_leaves_out_a_title_whose_marker_exists() {
    let mut ledger = Ledger::new();
    ledger.record("downloads/[crap] hello - 02 [720p].mkv.torrent.added".to_string());
    assert_eq!(
        run(banned(), PAGE, &ledger),
        vec![target("/view/item1", "[crap] hello - 01 [720p].mkv")]
    );
}

#[test]
fn second_run_after_downloads_plans_nothing() {
    let mut ledger = Ledger::new();
    let first = run(banned(), PAGE, &ledger);
    assert_eq!(first.len(), 2);
    for t in first.iter() {
        ledger.record(completed_path_of(&t.title));
    }
    assert_eq!(run(banned(), PAGE, &ledger), Vec::<Target>::new());
}

#[test]
fn clone_of_a_target_is_equal_to_it() {
    let t = target("/view/item1", "[crap] hello - 01 [720p].mkv");
    assert_eq!(t.clone(), t);
}

#[test]
fn title_is_filtered_out_once_its_download_is_recorded() {
    let mut ledger = Ledger::new();
    let twice = vec![target("/1", "same"), target("/2", "same")];
    let mut fetched = Vec::new();
    for t in twice.iter() {
        if ledger.filter_existing(t) {
            fetched.push(t.clone());
            ledger.record(completed_path_of(&t.title));
        }
    }
    assert_eq!(fetched, vec![target("/1", "same")]);
}
