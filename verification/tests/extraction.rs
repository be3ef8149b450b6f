use torrent_scraper::extractor::{
    candidate_of, collect_candidates, extract, get_targets_from_html, retain_valid, Anchor,
};
use torrent_scraper::target::Target;

fn target(href: &str, title: &str) -> Target {
    Target { href: href.to_string(), title: title.to_string() }
}

fn anchor(title: Option<&str>, href: Option<&str>) -> Anchor {
    Anchor { title: title.map(|s| s.to_string()), href: href.map(|s| s.to_string()) }
}

#[test]
fn targets_test() {
    let test_html = r#"
          <table>
            <td><a href="/view/item1" title="[crap] hello - 01 [720p].mkv">content1</a></td>
            <td><a href="/view/item2" title="[crap] hello - 02 [720p].mkv">content2</a></td>
            <td><a href="/view/item3" title="[crap] hello - 03 [720p].mkv">content3</a></td>
            <td><a href="/view/item3" title="[crap] hello! - 04 [720p].mkv">content3</a></td>
            <td><a href="/view/item4" title="[crap] banned - 01 [720p].mkv">content3</a></td>
            <td><a href="/view/item5" title="unknown pattern">content3</a></td>
            <td><a href="/view/item5" title="[crap] wrong format">content3</a></td>
          </table>
        "#;

    let targets = get_targets_from_html(vec!["banned".to_string()], test_html);

    assert_eq!(
        targets,
        vec![
            Target {
                href: "/view/item1".to_string(),
                title: "[crap] hello - 01 [720p].mkv".to_string()
            },
            Target {
                href: "/view/item2".to_string(),
                title: "[crap] hello - 02 [720p].mkv".to_string()
            },
            Target {
                href: "/view/item3".to_string(),
                title: "[crap] hello - 03 [720p].mkv".to_string()
            },
            Target {
                href: "/view/item3".to_string(),
                title: "[crap] hello! - 04 [720p].mkv".to_string()
            }
        ]
    );
}

#[test]
fn extract_keeps_every_complete_anchor_whatever_its_title() {
    let html = r#"<table><tr>
        <td><a href="/a" title="unknown pattern">x</a></td>
        <td><a href="/b" title="[crap] hello - 01 [720p].mkv">y</a></td>
    </tr></table>"#;
    assert_eq!(
        extract(html),
        vec![target("/a", "unknown pattern"), target("/b", "[crap] hello - 01 [720p].mkv")]
    );
}

#[test]
fn extract_skips_anchors_without_title_or_href() {
    let html = r#"<table><tr>
        <td><a href="/no-title">x</a></td>
        <td><a title="no href">y</a></td>
        <td><a>z</a></td>
        <td><a href="/both" title="both">w</a></td>
    </tr></table>"#;
    assert_eq!(extract(html), vec![target("/both", "both")]);
}

#[test]
fn extract_ignores_anchors_outside_cells() {
    let html = r#"<a href="/out" title="outside">x</a>
        <table><tr><td><a href="/in" title="inside">y</a></td></tr></table>"#;
    assert_eq!(extract(html), vec![target("/in", "inside")]);
}

#[test]
fn extract_finds_anchors_deep_below_a_cell() {
    let html = r#"<table><tr><td><div><span><a href="/deep" title="deep">y</a></span></div></td></tr></table>"#;
    assert_eq!(extract(html), vec![target("/deep", "deep")]);
}

#[test]
fn extract_keeps_document_order_and_duplicates() {
    let html = r#"<table><tr>
        <td><a href="/2" title="second">x</a><a href="/1" title="first">x</a></td>
        <td><a href="/2" title="second">x</a></td>
    </tr></table>"#;
    assert_eq!(
        extract(html),
        vec![target("/2", "second"), target("/1", "first"), target("/2", "second")]
    );
}

#[test]
fn extract_lists_an_anchor_once_for_each_cell_around_it() {
    let html = r#"<table><tr><td>
        <table><tr><td><a href="/n" title="nested">x</a></td></tr></table>
    </td></tr></table>"#;
    assert_eq!(extract(html), vec![target("/n", "nested"), target("/n", "nested")]);
}

#[test]
fn extract_of_empty_or_plain_text_is_empty() {
    assert_eq!(extract(""), Vec::<Target>::new());
    assert_eq!(extract("no markup at all"), Vec::<Target>::new());
}

#[test]
fn candidate_of_needs_both_attributes() {
    assert_eq!(candidate_of(&anchor(Some("t"), Some("/h"))), Some(target("/h", "t")));
    assert_eq!(candidate_of(&anchor(None, Some("/h"))), None);
    assert_eq!(candidate_of(&anchor(Some("t"), None)), None);
    assert_eq!(candidate_of(&anchor(None, None)), None);
}

#[test]
fn collect_candidates_flattens_cells_in_order() {
    let cells = vec![
        vec![anchor(Some("a"), Some("/a")), anchor(None, Some("/skipped"))],
        vec![],
        vec![anchor(Some("b"), Some("/b")), anchor(Some("a"), Some("/a"))],
    ];
    assert_eq!(
        collect_candidates(&cells),
        vec![target("/a", "a"), target("/b", "b"), target("/a", "a")]
    );
}

#[test]
fn retain_valid_filters_in_order() {
    let found = vec![
        target("/1", "[x] show - 01 [720p].mkv"),
        target("/2", "plain"),
        target("/3", "[x] banned show - 02 [1080p].mkv"),
        target("/4", "[x] show - 03 [480p].mkv"),
    ];
    assert_eq!(
        retain_valid(&vec!["banned".to_string()], &found),
        vec![target("/1", "[x] show - 01 [720p].mkv"), target("/4", "[x] show - 03 [480p].mkv")]
    );
}

#[test]
fn get_targets_with_no_banned_words_keeps_all_grammar_titles() {
    let html = r#"<table><td><a href="/view/item4" title="[crap] banned - 01 [720p].mkv">c</a></td></table>"#;
    assert_eq!(
        get_targets_from_html(vec![], html),
        vec![target("/view/item4", "[crap] banned - 01 [720p].mkv")]
    );
}

#[test]
fn get_targets_keeps_a_title_with_a_line_feed_in_its_free_text() {
    let html = "<table><tr><td><a href='/view/n' title='[crap] a\nb - 01 [720p].mkv'>c</a></td></tr></table>";
    assert_eq!(
        get_targets_from_html(vec![], html),
        vec![target("/view/n", "[crap] a\nb - 01 [720p].mkv")]
    );
}
