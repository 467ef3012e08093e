use link_extractor::config::{LinkError, PipelineConfig};
use link_extractor::link::Url;
use link_extractor::pipeline::{
    candidate_link, collect_links, contains_link, process, push_new, reverse_links, sort_links,
};

fn options(sort: bool, reverse: bool, internal: bool, external: bool) -> PipelineConfig {
    PipelineConfig { sort, reverse, internal, external }
}

fn raw(links: &[&str]) -> Vec<String> {
    links.iter().map(|l| l.to_string()).collect()
}

fn run(base: &str, links: &[&str], config: PipelineConfig) -> Vec<String> {
    let base = Url::parse(base).unwrap();
    process(&base, &raw(links), &config)
        .unwrap()
        .iter()
        .map(|u| u.as_str().to_string())
        .collect()
}

fn addresses(links: &[&str]) -> Vec<Url> {
    links.iter().map(|l| Url::parse(l).unwrap()).collect()
}

fn shown(links: &[Url]) -> Vec<&str> {
    links.iter().map(|u| u.as_str()).collect()
}

#[test]
fn fragments_collapse_to_one_entry() {
    let got = run(
        "https://example.org/",
        &["/a.html#x", "/a.html#y", "/a.html"],
        options(false, false, false, false),
    );
    assert_eq!(got, vec!["https://example.org/a.html"]);
}

#[test]
fn sorting_orders_by_text() {
    let got = run("https://example.org/", &["/b.html", "/a.html"], options(true, false, false, false));
    assert_eq!(got, vec!["https://example.org/a.html", "https://example.org/b.html"]);
}

#[test]
fn internal_keeps_same_origin_only() {
    let got = run(
        "https://example.org/",
        &["/in.html", "https://ext.com/out.html"],
        options(false, false, true, false),
    );
    assert_eq!(got, vec!["https://example.org/in.html"]);
}

#[test]
fn external_keeps_other_origins_only() {
    let got = run(
        "https://example.org/",
        &["/in.html", "https://ext.com/out.html"],
        options(false, false, false, true),
    );
    assert_eq!(got, vec!["https://ext.com/out.html"]);
}

#[test]
fn conflicting_filters_are_refused() {
    let base = Url::parse("https://example.org/").unwrap();
    for links in [raw(&[]), raw(&["/a.html"]), raw(&["http://[bad"])] {
        for sort in [false, true] {
            for reverse in [false, true] {
                let outcome = process(&base, &links, &options(sort, reverse, true, true));
                assert_eq!(outcome.err(), Some(LinkError::ConfigError));
            }
        }
    }
}

#[test]
fn validate_accepts_all_but_the_conflict() {
    for sort in [false, true] {
        for reverse in [false, true] {
            assert_eq!(options(sort, reverse, false, false).validate(), Ok(()));
            assert_eq!(options(sort, reverse, true, false).validate(), Ok(()));
            assert_eq!(options(sort, reverse, false, true).validate(), Ok(()));
            assert_eq!(options(sort, reverse, true, true).validate(), Err(LinkError::ConfigError));
        }
    }
}

#[test]
fn no_links_give_an_empty_result() {
    for sort in [false, true] {
        for reverse in [false, true] {
            let got = run("https://example.org/", &[], options(sort, reverse, false, false));
            assert!(got.is_empty());
        }
    }
}

#[test]
fn a_link_to_the_page_itself_is_kept() {
    let got = run(
        "https://example.org/page.html",
        &["#top", "", "/page.html", "other.html"],
        options(false, false, false, false),
    );
    assert_eq!(got, vec!["https://example.org/page.html", "https://example.org/other.html"]);
}

#[test]
fn repeated_links_keep_their_first_place() {
    let got = run(
        "https://example.org/",
        &["/c.html", "/a.html", "/c.html#again", "/b.html", "/a.html", "/c.html"],
        options(false, false, false, false),
    );
    assert_eq!(
        got,
        vec![
            "https://example.org/c.html",
            "https://example.org/a.html",
            "https://example.org/b.html"
        ]
    );
}

#[test]
fn sorted_result_is_non_decreasing() {
    let got = run(
        "https://example.org/",
        &["/b", "/a/z", "/B", "/a", "/ab", "https://Example.com/q", "/a?x=1", "/b"],
        options(true, false, false, false),
    );
    assert_eq!(
        got,
        vec![
            "https://example.com/q",
            "https://example.org/B",
            "https://example.org/a",
            "https://example.org/a/z",
            "https://example.org/a?x=1",
            "https://example.org/ab",
            "https://example.org/b"
        ]
    );
    for pair in got.windows(2) {
        assert!(pair[0] < pair[1]);
    }
}

#[test]
fn reversing_comes_after_sorting() {
    let links = ["/m.html", "/z.html", "/a.html", "/m.html#x", "https://ext.com/"];
    for sort in [false, true] {
        let forward = run("https://example.org/", &links, options(sort, false, false, false));
        let backward = run("https://example.org/", &links, options(sort, true, false, false));
        let mut expected = forward.clone();
        expected.reverse();
        assert_eq!(backward, expected);
    }
    let descending = run("https://example.org/", &links, options(true, true, false, false));
    assert_eq!(
        descending,
        vec![
            "https://ext.com/",
            "https://example.org/z.html",
            "https://example.org/m.html",
            "https://example.org/a.html"
        ]
    );
}

#[test]
fn internal_and_external_split_the_links() {
    let links = [
        "/in.html",
        "https://ext.com/out.html",
        "http://example.org/plain.html",
        "https://example.org:8443/port.html",
        "https://example.org:443/default.html",
        "mailto:someone@example.org",
        "sub/page.html#frag",
    ];
    for sort in [false, true] {
        for reverse in [false, true] {
            let all = run("https://example.org/", &links, options(sort, reverse, false, false));
            let inner = run("https://example.org/", &links, options(sort, reverse, true, false));
            let outer = run("https://example.org/", &links, options(sort, reverse, false, true));
            for link in &inner {
                assert!(!outer.contains(link));
                assert!(all.contains(link));
            }
            for link in &outer {
                assert!(all.contains(link));
            }
            for link in &all {
                assert!(inner.contains(link) || outer.contains(link));
            }
            assert_eq!(inner.len() + outer.len(), all.len());
        }
    }
    let inner = run("https://example.org/", &links, options(false, false, true, false));
    assert_eq!(
        inner,
        vec![
            "https://example.org/in.html",
            "https://example.org/default.html",
            "https://example.org/sub/page.html"
        ]
    );
}

#[test]
fn unresolvable_links_are_left_out() {
    let with = run(
        "https://example.org/",
        &["/a.html", "http://[bad", "https://exa mple.com/", "/b.html"],
        options(false, false, false, false),
    );
    let without = run("https://example.org/", &["/a.html", "/b.html"], options(false, false, false, false));
    assert_eq!(with, without);
    assert_eq!(with, vec!["https://example.org/a.html", "https://example.org/b.html"]);
}

#[test]
fn a_link_with_spaces_resolves_as_a_relative_path() {
    let got = run(
        "https://example.org/",
        &["/a.html", "not a url \x00"],
        options(false, false, false, false),
    );
    assert!(!got.iter().any(|l| l == "not a url \x00"));
    assert_eq!(got, vec!["https://example.org/a.html", "https://example.org/not%20a%20url"]);
}

#[test]
fn filters_decide_by_origin_alone() {
    let neither = options(false, false, false, false);
    let inner = options(true, true, true, false);
    let outer = options(false, false, false, true);
    assert!(neither.admits(true) && neither.admits(false));
    assert!(inner.admits(true) && !inner.admits(false));
    assert!(!outer.admits(true) && outer.admits(false));
    let both = options(false, false, true, true);
    assert!(!both.admits(true) && !both.admits(false));
}

#[test]
fn candidate_is_resolved_stripped_and_filtered() {
    let base = Url::parse("https://example.org/dir/").unwrap();
    let none = options(false, false, false, false);
    let inner = options(false, false, true, false);
    let outer = options(false, false, false, true);
    let got = candidate_link(&base, "x.html?q=1#frag", &none).unwrap();
    assert_eq!(got.as_str(), "https://example.org/dir/x.html?q=1");
    assert!(candidate_link(&base, "x.html", &inner).is_some());
    assert!(candidate_link(&base, "x.html", &outer).is_none());
    assert!(candidate_link(&base, "//other.net/x", &inner).is_none());
    assert_eq!(candidate_link(&base, "//other.net/x", &outer).unwrap().as_str(), "https://other.net/x");
    assert!(candidate_link(&base, "http://[bad", &none).is_none());
}

#[test]
fn collecting_keeps_first_occurrences() {
    let base = Url::parse("https://example.org/").unwrap();
    let got = collect_links(
        &base,
        &raw(&["/b", "/a#1", "/b#2", "/a"]),
        &options(true, true, false, false),
    );
    assert_eq!(shown(&got), vec!["https://example.org/b", "https://example.org/a"]);
}

#[test]
fn push_new_appends_only_what_is_new() {
    let mut links = addresses(&["https://example.org/b", "https://example.org/a"]);
    push_new(&mut links, Url::parse("https://example.org/b").unwrap());
    assert_eq!(shown(&links), vec!["https://example.org/b", "https://example.org/a"]);
    push_new(&mut links, Url::parse("https://example.org/c").unwrap());
    assert_eq!(
        shown(&links),
        vec!["https://example.org/b", "https://example.org/a", "https://example.org/c"]
    );
    let mut none: Vec<Url> = Vec::new();
    push_new(&mut none, Url::parse("https://example.org/").unwrap());
    assert_eq!(shown(&none), vec!["https://example.org/"]);
}

#[test]
fn membership_goes_by_text() {
    let links = addresses(&["https://example.org/a", "https://example.org/b"]);
    assert!(contains_link(&links, &Url::parse("https://EXAMPLE.org/b").unwrap()));
    assert!(!contains_link(&links, &Url::parse("https://example.org/b#x").unwrap()));
    assert!(!contains_link(&Vec::new(), &Url::parse("https://example.org/a").unwrap()));
}

#[test]
fn sort_links_orders_prefix_first_and_by_code_point() {
    let links = addresses(&[
        "https://example.org/ab",
        "https://example.org/a",
        "https://example.org/%C3%A9",
        "https://example.org/Z",
        "https://example.org/a",
        "http://example.org/z",
    ]);
    let sorted = sort_links(&links);
    assert_eq!(
        shown(&sorted),
        vec![
            "http://example.org/z",
            "https://example.org/%C3%A9",
            "https://example.org/Z",
            "https://example.org/a",
            "https://example.org/a",
            "https://example.org/ab"
        ]
    );
    assert!(sort_links(&Vec::new()).is_empty());
}

#[test]
fn reverse_links_puts_the_last_first() {
    let links = addresses(&["https://a.example/", "https://c.example/", "https://b.example/"]);
    let reversed = reverse_links(&links);
    assert_eq!(
        shown(&reversed),
        vec!["https://b.example/", "https://c.example/", "https://a.example/"]
    );
    assert!(reverse_links(&Vec::new()).is_empty());
}
