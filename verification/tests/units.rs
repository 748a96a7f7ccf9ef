use itn_feed::dom::{HNode, HElement, find_element, find_root_element, first_child_element};
use itn_feed::escape::escape_text;
use itn_feed::news::{NewsItem, element_to_news_item, extract_news_items};
use itn_feed::serialize::{attributes_to_string, element_to_string, element_children_to_string};
use itn_feed::feed::render_feed;

fn elem(name: &str, children: Vec<HNode>) -> HElement {
    HElement {
        name: name.to_string(),
        id: None,
        classes: Vec::new(),
        attributes: Vec::new(),
        children,
    }
}

fn link(href: &str, title: &str, text: &str) -> HElement {
    HElement {
        name: "a".to_string(),
        id: None,
        classes: Vec::new(),
        attributes: vec![
            ("href".to_string(), Some(href.to_string())),
            ("title".to_string(), Some(title.to_string())),
        ],
        children: vec![HNode::Text(text.to_string())],
    }
}

#[test]
fn escape_text_rewrites_all_special_characters() {
    let out = escape_text("a&b<c>d\"e");
    assert_eq!(out, "a&amp;b&lt;c&gt;d&quot;e");
    assert_eq!(escape_text(""), "");
    assert_eq!(escape_text("plain"), "plain");
    assert_eq!(escape_text("&&"), "&amp;&amp;");
}

fn unescape(s: &str) -> String {
    let mut out = String::new();
    let mut rest = s;
    while !rest.is_empty() {
        if let Some(r) = rest.strip_prefix("&amp;") {
            out.push('&');
            rest = r;
        } else if let Some(r) = rest.strip_prefix("&lt;") {
            out.push('<');
            rest = r;
        } else if let Some(r) = rest.strip_prefix("&gt;") {
            out.push('>');
            rest = r;
        } else if let Some(r) = rest.strip_prefix("&quot;") {
            out.push('"');
            rest = r;
        } else {
            let c = rest.chars().next().unwrap();
            out.push(c);
            rest = &rest[c.len_utf8()..];
        }
    }
    out
}

#[test]
fn escaping_round_trips() {
    for s in ["", "x", "<b>&\"quoted\"</b>", "&amp;", "a<b>c", "\u{e9}<&"] {
        assert_eq!(unescape(&escape_text(s)), s);
    }
}

#[test]
fn attributes_render_in_order_with_absolute_href() {
    let attrs = vec![
        ("href".to_string(), Some("/wiki/Foo".to_string())),
        ("lang".to_string(), Some("en".to_string())),
        ("hidden".to_string(), None),
        ("alt".to_string(), Some("a<b".to_string())),
    ];
    assert_eq!(
        attributes_to_string(&attrs),
        " href=\"https://en.wikipedia.org/wiki/Foo\" lang=\"en\" hidden alt=\"a&lt;b\""
    );
    assert_eq!(attributes_to_string(&Vec::new()), "");
}

#[test]
fn elements_serialize_with_explicit_close_tags() {
    let e = elem(
        "li",
        vec![
            HNode::Element(elem("br", vec![])),
            HNode::Text("x & y".to_string()),
            HNode::Other,
        ],
    );
    assert_eq!(element_to_string(&e), "<li><br></br>x &amp; y</li>");
    assert_eq!(element_children_to_string(&e), "<br></br>x &amp; y");
}

#[test]
fn find_element_is_depth_first_and_first_match() {
    let tree = vec![
        HNode::Text("t".to_string()),
        HNode::Element(elem("div", vec![HNode::Element(elem("b", vec![HNode::Text("inner".to_string())]))])),
        HNode::Element(elem("b", vec![HNode::Text("outer".to_string())])),
    ];
    let found = find_element(&tree, "b").expect("a bold element exists");
    assert!(matches!(&found.children[0], HNode::Text(t) if t == "inner"));
    assert!(find_element(&tree, "table").is_none());
}

#[test]
fn first_child_element_ignores_descendants() {
    let tree = vec![
        HNode::Element(elem("div", vec![HNode::Element(elem("ul", vec![]))])),
        HNode::Element(elem("ul", vec![HNode::Text("direct".to_string())])),
    ];
    let found = first_child_element(&tree, "ul").expect("a direct ul exists");
    assert!(matches!(&found.children[0], HNode::Text(t) if t == "direct"));
}

fn content_page(list: HElement) -> Vec<HNode> {
    let output = HElement {
        name: "div".to_string(),
        id: None,
        classes: vec!["mw-parser-output".to_string()],
        attributes: Vec::new(),
        children: vec![HNode::Element(list)],
    };
    let content = HElement {
        name: "div".to_string(),
        id: Some("mw-content-text".to_string()),
        classes: Vec::new(),
        attributes: Vec::new(),
        children: vec![HNode::Element(output)],
    };
    vec![HNode::Element(elem("body", vec![HNode::Element(content)]))]
}

#[test]
fn conversion_requires_bold_wrapped_link() {
    let good = elem(
        "li",
        vec![
            HNode::Element(elem("b", vec![HNode::Element(link("/wiki/Foo", "Foo Bar", "Foo Bar"))])),
            HNode::Text(" is happening.".to_string()),
        ],
    );
    let item = element_to_news_item(&good).expect("entry qualifies");
    assert_eq!(item.title, "Foo Bar");
    assert_eq!(item.id, "/wiki/Foo");
    assert_eq!(item.url, "https://en.wikipedia.org/wiki/Foo");
    assert_eq!(
        item.body,
        "<b><a href=\"https://en.wikipedia.org/wiki/Foo\" title=\"Foo Bar\">Foo Bar</a></b> is happening."
    );

    // No bold marker at all.
    let no_bold = elem("li", vec![HNode::Text("plain".to_string())]);
    assert!(element_to_news_item(&no_bold).is_none());

    // The bold element's first child is text, not the link.
    let text_first = elem(
        "li",
        vec![HNode::Element(elem(
            "b",
            vec![HNode::Text("x".to_string()), HNode::Element(link("/wiki/F", "F", "F"))],
        ))],
    );
    assert!(element_to_news_item(&text_first).is_none());

    // The link lacks a title.
    let mut untitled = link("/wiki/F", "F", "F");
    untitled.attributes.retain(|(k, _)| k != "title");
    let no_title = elem("li", vec![HNode::Element(elem("b", vec![HNode::Element(untitled)]))]);
    assert!(element_to_news_item(&no_title).is_none());
}

#[test]
fn extraction_bounds_and_urls() {
    let list = elem(
        "ul",
        vec![
            HNode::Element(elem(
                "li",
                vec![HNode::Element(elem("b", vec![HNode::Element(link("/wiki/A", "A", "A"))]))],
            )),
            HNode::Element(elem("li", vec![HNode::Text("broken".to_string())])),
            HNode::Text("stray".to_string()),
            HNode::Element(elem("p", vec![])),
        ],
    );
    let li_count = 2;
    let extraction = extract_news_items(&list);
    assert!(extraction.items.len() <= li_count);
    assert_eq!(extraction.items.len(), 1);
    assert_eq!(extraction.skipped.len(), 1);
    for item in &extraction.items {
        assert_eq!(item.url, format!("https://en.wikipedia.org{}", item.id));
        assert!(item.url.starts_with("https://en.wikipedia.org"));
        assert!(!item.title.is_empty());
    }
}

#[test]
fn find_root_element_walks_the_fixed_path() {
    let nodes = content_page(elem("ul", vec![HNode::Text("marker".to_string())]));
    let root = find_root_element(&nodes).expect("target list exists");
    assert_eq!(root.name, "ul");
    assert!(matches!(&root.children[0], HNode::Text(t) if t == "marker"));

    let wrong = vec![HNode::Element(elem("div", vec![]))];
    assert!(find_root_element(&wrong).is_none());
}

#[test]
fn timestamps_fall_by_one_second_per_entry() {
    let items = vec![
        NewsItem {
            title: "A".to_string(),
            body: "a".to_string(),
            url: "https://en.wikipedia.org/wiki/A".to_string(),
            id: "/wiki/A".to_string(),
        },
        NewsItem {
            title: "B".to_string(),
            body: "b".to_string(),
            url: "https://en.wikipedia.org/wiki/B".to_string(),
            id: "/wiki/B".to_string(),
        },
    ];
    // 1_000_000_000 is 2001-09-09T01:46:40Z.
    let feed = render_feed(&items, 1_000_000_000);
    assert!(feed.contains("<published>2001-09-09T01:46:39Z</published>"));
    assert!(feed.contains("<published>2001-09-09T01:46:38Z</published>"));
    // The document stamp equals the base less the entry count, which is the
    // last entry's stamp.
    assert!(feed.contains("<updated>2001-09-09T01:46:38Z</updated>"));
    let first = feed.find("2001-09-09T01:46:39Z").unwrap();
    let second = feed.find("2001-09-09T01:46:38Z").unwrap();
    assert!(second < first, "document stamp precedes the entries");
}

#[test]
fn published_equals_updated_per_entry() {
    let items = vec![NewsItem {
        title: "A".to_string(),
        body: "a".to_string(),
        url: "https://en.wikipedia.org/wiki/A".to_string(),
        id: "/wiki/A".to_string(),
    }];
    let feed = render_feed(&items, 1_000_000_000);
    assert!(feed.contains("<published>2001-09-09T01:46:39Z</published>"));
    assert!(feed.contains("<updated>2001-09-09T01:46:39Z</updated>"));
}

#[test]
fn empty_feed_matches_exactly() {
    let feed = render_feed(&Vec::new(), 1_000_000_000);
    assert_eq!(
        feed,
        "<?xml version=\"1.0\" encoding=\"utf-8\"?>\n\
         <feed xmlns=\"http://www.w3.org/2005/Atom\">\n    \
         <title>Wikipedia In The News</title>\n    \
         <link href=\"https://en.wikipedia.org/wiki/Template:In_the_news\"/>\n    \
         <id>urn:uuid:e0579856-2b18-4a8e-8c76-771c24206362</id>\n    \
         <updated>2001-09-09T01:46:40Z</updated>\n\
         </feed>\n"
    );
}

#[test]
fn one_entry_feed_matches_exactly() {
    let items = vec![NewsItem {
        title: "A".to_string(),
        body: "a".to_string(),
        url: "https://en.wikipedia.org/wiki/A".to_string(),
        id: "/wiki/A".to_string(),
    }];
    let feed = render_feed(&items, 1_000_000_000);
    assert_eq!(
        feed,
        "<?xml version=\"1.0\" encoding=\"utf-8\"?>\n\
         <feed xmlns=\"http://www.w3.org/2005/Atom\">\n    \
         <title>Wikipedia In The News</title>\n    \
         <link href=\"https://en.wikipedia.org/wiki/Template:In_the_news\"/>\n    \
         <id>urn:uuid:e0579856-2b18-4a8e-8c76-771c24206362</id>\n    \
         <updated>2001-09-09T01:46:39Z</updated>\n    \
         <entry>\n        \
         <title>A</title>\n        \
         <link href=\"https://en.wikipedia.org/wiki/A\"/>\n        \
         <id>/wiki/A</id>\n        \
         <published>2001-09-09T01:46:39Z</published>\n        \
         <updated>2001-09-09T01:46:39Z</updated>\n        \
         <content type=\"xhtml\"><div xmlns=\"http://www.w3.org/1999/xhtml\">a</div></content>\n    \
         </entry>\n\
         </feed>\n"
    );
}
