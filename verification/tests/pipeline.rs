use itn_feed::process_html;
use itn_feed::FeedError;

fn page(list_html: &str) -> String {
    format!(
        "<html><body><div id=\"mw-content-text\"><div class=\"mw-parser-output\">{}</div></div></body></html>",
        list_html
    )
}

#[test]
fn one_entry_one_skip() {
    let html = page(
        "<ul>\
         <li><b><a href=\"/wiki/Foo\" title=\"Foo Bar\">Foo Bar</a></b> is happening.</li>\
         <li>No bold link here.</li>\
         </ul>",
    );
    let out = process_html(&html).expect("feed expected");
    let feed = out.feed;
    assert_eq!(feed.matches("<entry>").count(), 1);
    assert!(feed.contains("<title>Foo Bar</title>"));
    assert!(feed.contains("<link href=\"https://en.wikipedia.org/wiki/Foo\"/>"));
    assert!(feed.contains("<id>/wiki/Foo</id>"));
    // The body keeps the bold-wrapped link with the href made absolute and
    // the trailing text; attribute order within the tag may vary.
    assert!(feed.contains("href=\"https://en.wikipedia.org/wiki/Foo\""));
    assert!(feed.contains("title=\"Foo Bar\""));
    assert!(feed.contains(">Foo Bar</a></b> is happening.</div></content>"));
    // The failing entry produces a diagnostic, not an entry.
    assert_eq!(out.skipped.len(), 1);
    assert!(out.skipped[0].contains("No bold link here."));
}

#[test]
fn missing_output_container_is_fatal() {
    let html = "<html><body><div id=\"mw-content-text\"><div class=\"other\">\
                <ul><li><b><a href=\"/wiki/X\" title=\"X\">X</a></b></li></ul>\
                </div></div></body></html>";
    assert!(matches!(process_html(html), Err(FeedError::StructureNotFound)));
}

#[test]
fn missing_content_container_is_fatal() {
    let html = "<html><body><div class=\"mw-parser-output\"><ul></ul></div></body></html>";
    assert!(matches!(process_html(html), Err(FeedError::StructureNotFound)));
}

#[test]
fn missing_list_is_fatal() {
    let html = page("<p>nothing here</p>");
    assert!(matches!(process_html(&html), Err(FeedError::StructureNotFound)));
}

#[test]
fn empty_list_gives_envelope_only() {
    let html = page("<ul></ul>");
    let out = process_html(&html).expect("feed expected");
    assert!(!out.feed.contains("<entry>"));
    assert!(out.feed.starts_with("<?xml version=\"1.0\" encoding=\"utf-8\"?>"));
    assert!(out.feed.contains("<feed xmlns=\"http://www.w3.org/2005/Atom\">"));
    assert!(out.feed.contains("<title>Wikipedia In The News</title>"));
    assert!(out.feed.contains("<id>urn:uuid:e0579856-2b18-4a8e-8c76-771c24206362</id>"));
    assert!(out.feed.trim_end().ends_with("</feed>"));
    assert!(out.skipped.is_empty());
}

#[test]
fn unparseable_input_is_parse_error() {
    // A fragment with a top-level `body` but no `html` is rejected by the
    // HTML parser.
    assert!(matches!(process_html("<body><p>x</p></body>"), Err(FeedError::ParseError)));
}

#[test]
fn extraction_is_deterministic_in_its_stable_parts() {
    let html = page(
        "<ul>\
         <li><b><a href=\"/wiki/A\" title=\"A\">A</a></b> one</li>\
         <li><b><a href=\"/wiki/B\" title=\"B\">B</a></b> two</li>\
         </ul>",
    );
    let a = process_html(&html).expect("feed expected");
    let b = process_html(&html).expect("feed expected");
    let stable = |feed: &str| -> Vec<String> {
        feed.lines()
            .filter(|l| l.contains("<title>") || l.contains("<id>") || l.contains("<link"))
            .map(|l| l.to_string())
            .collect()
    };
    assert_eq!(stable(&a.feed), stable(&b.feed));
    assert_eq!(a.skipped, b.skipped);
}

#[test]
fn nested_lists_use_only_direct_children() {
    // The inner list's items are not entries of their own; only the two
    // direct children of the target list count, and each qualifies.
    let html = page(
        "<ul>\
         <li><b><a href=\"/wiki/A\" title=\"A\">A</a></b><ul><li><b><a href=\"/wiki/C\" title=\"C\">C</a></b></li></ul></li>\
         <li><b><a href=\"/wiki/B\" title=\"B\">B</a></b></li>\
         </ul>",
    );
    let out = process_html(&html).expect("feed expected");
    assert_eq!(out.feed.matches("<entry>").count(), 2);
    assert!(out.feed.contains("<id>/wiki/A</id>"));
    assert!(out.feed.contains("<id>/wiki/B</id>"));
    assert!(!out.feed.contains("<id>/wiki/C</id>"));
}

#[test]
fn first_list_wins() {
    let html = page(
        "<ul><li><b><a href=\"/wiki/First\" title=\"First\">F</a></b></li></ul>\
         <ul><li><b><a href=\"/wiki/Second\" title=\"Second\">S</a></b></li></ul>",
    );
    let out = process_html(&html).expect("feed expected");
    assert_eq!(out.feed.matches("<entry>").count(), 1);
    assert!(out.feed.contains("<id>/wiki/First</id>"));
}

#[test]
fn empty_href_or_title_is_skipped() {
    let html = page(
        "<ul>\
         <li><b><a href=\"\" title=\"T\">x</a></b></li>\
         <li><b><a href=\"/wiki/Y\" title=\"\">y</a></b></li>\
         <li><b><a href=\"/wiki/Z\">z</a></b></li>\
         </ul>",
    );
    let out = process_html(&html).expect("feed expected");
    assert!(!out.feed.contains("<entry>"));
    assert_eq!(out.skipped.len(), 3);
}
