//! Whole-document checks: the rendered feed must be well-formed XML for
//! valid item sequences, including ones whose text and attribute values
//! carry markup characters.

use itn_feed::news::NewsItem;
use itn_feed::feed::render_feed;
use itn_feed::process_html;

/// A small well-formedness check: tags balance, attributes are quoted, and
/// `&` only ever starts a known entity. Returns the error position on
/// failure.
fn check_xml(s: &str) -> Result<(), usize> {
    let b: Vec<char> = s.chars().collect();
    let n = b.len();
    let mut i = 0;
    let mut stack: Vec<String> = Vec::new();
    let entity_ok = |i: usize| -> bool {
        let rest: String = b[i..std::cmp::min(i + 6, n)].iter().collect();
        ["&amp;", "&lt;", "&gt;", "&quot;", "&apos;"].iter().any(|e| rest.starts_with(e))
    };
    // Optional declaration.
    if s.starts_with("<?xml") {
        while i < n && b[i] != '>' {
            i += 1;
        }
        if i == n {
            return Err(i);
        }
        i += 1;
    }
    while i < n {
        let c = b[i];
        if c == '<' {
            if i + 1 < n && b[i + 1] == '/' {
                // Closing tag.
                let mut j = i + 2;
                let mut name = String::new();
                while j < n && b[j] != '>' {
                    name.push(b[j]);
                    j += 1;
                }
                if j == n {
                    return Err(i);
                }
                match stack.pop() {
                    Some(open) if open == name => {},
                    _ => return Err(i),
                }
                i = j + 1;
            } else {
                // Opening tag: name, then attributes, then `>` or `/>`.
                let mut j = i + 1;
                let mut name = String::new();
                while j < n && !b[j].is_whitespace() && b[j] != '>' && b[j] != '/' {
                    name.push(b[j]);
                    j += 1;
                }
                if name.is_empty() {
                    return Err(i);
                }
                let mut self_closing = false;
                loop {
                    if j >= n {
                        return Err(i);
                    }
                    if b[j] == '"' {
                        // Quoted attribute value: no raw `<` or `"`, entities only.
                        j += 1;
                        while j < n && b[j] != '"' {
                            if b[j] == '<' {
                                return Err(j);
                            }
                            if b[j] == '&' && !entity_ok(j) {
                                return Err(j);
                            }
                            j += 1;
                        }
                        if j == n {
                            return Err(i);
                        }
                        j += 1;
                    } else if b[j] == '/' && j + 1 < n && b[j + 1] == '>' {
                        self_closing = true;
                        j += 2;
                        break;
                    } else if b[j] == '>' {
                        j += 1;
                        break;
                    } else {
                        j += 1;
                    }
                }
                if !self_closing {
                    stack.push(name);
                }
                i = j;
            }
        } else if c == '&' {
            if !entity_ok(i) {
                return Err(i);
            }
            i += 1;
        } else if c == '>' {
            return Err(i);
        } else {
            i += 1;
        }
    }
    if stack.is_empty() {
        Ok(())
    } else {
        Err(n)
    }
}

fn item(title: &str, body: &str, href: &str) -> NewsItem {
    NewsItem {
        title: title.to_string(),
        body: body.to_string(),
        url: format!("https://en.wikipedia.org{}", href),
        id: href.to_string(),
    }
}

#[test]
fn checker_rejects_broken_documents() {
    assert!(check_xml("<a><b></b></a>").is_ok());
    assert!(check_xml("<a>").is_err());
    assert!(check_xml("<a></b>").is_err());
    assert!(check_xml("<a>x & y</a>").is_err());
    assert!(check_xml("<a t=\"<\"></a>").is_err());
}

#[test]
fn empty_feed_is_well_formed() {
    let feed = render_feed(&Vec::new(), 1_000_000_000);
    check_xml(&feed).expect("well-formed");
}

#[test]
fn feeds_with_hostile_text_are_well_formed() {
    let items = vec![
        item("A & B <i>", "safe &amp; escaped <b></b>", "/wiki/A\"&<>"),
        item("plain", "text only", "/wiki/B"),
    ];
    let feed = render_feed(&items, 2_000_000_000);
    check_xml(&feed).expect("well-formed");
}

#[test]
fn end_to_end_feed_is_well_formed() {
    let html = "<html><body><div id=\"mw-content-text\"><div class=\"mw-parser-output\">\
                <ul>\
                <li><b><a href=\"/wiki/AT%26T\" title=\"AT&amp;T news\">AT&amp;T</a></b> text with &lt;angle&gt; brackets.</li>\
                <li><b><a href=\"/wiki/B\" title=\"B\"><i>B</i></a></b> nested <i>markup</i>.</li>\
                </ul>\
                </div></div></body></html>";
    let out = process_html(html).expect("feed expected");
    check_xml(&out.feed).expect("well-formed");
    assert_eq!(out.feed.matches("<entry>").count(), 2);
}
