//! Turns the rendered HTML of Wikipedia's "In the news" template into an
//! Atom feed. The tree search, per-entry extraction, fragment
//! re-serialization and feed rendering are verified; the HTML parser and
//! the clock are outside collaborators reached through trusted wrappers.

pub mod clock;
pub mod dom;
pub mod escape;
pub mod feed;
pub mod news;
pub mod parse;
pub mod serialize;

use vstd::prelude::*;
use crate::clock::MAX_FEED_TIMESTAMP;
use crate::dom::{HNode, HElement, spec_find_root, find_root_element};
use crate::news::{spec_extract_items, spec_extract_skips, extract_news_items};
use crate::feed::{spec_feed_xml, write_atom_feed};
use crate::parse::{spec_parse, spec_parse_representable, hnodes_model, MAX_TREE_DEPTH};

verus! {

/// Why no feed came out. Structural failures are fatal by design: a feed
/// for the wrong page is worse than none.
#[derive(Clone, Copy, Debug, PartialEq, Eq, Structural)]
pub enum FeedError {
    /// The input is not parseable as HTML (or its tree nests beyond the
    /// supported depth).
    ParseError,
    /// One of the fixed structural anchors — content container, output
    /// container, target list — is absent.
    StructureNotFound,
    /// More entries than the renderer's timestamp range can stamp; a
    /// capacity guard no real page approaches.
    TooLarge,
}

/// A produced feed: the Atom document text, and one diagnostic per skipped
/// list entry, holding the entry's re-serialized content.
pub struct FeedOutput {
    pub feed: String,
    pub skipped: Vec<String>,
}

/// The whole pipeline: parse the page text, locate the target list, extract
/// its entries, and render the Atom document with stamps counted down from
/// the clock. Success and each error are tied to the named parse outcome of
/// the input: a feed comes out exactly when the text parses (within the
/// depth bound), the target list is found, and the entry count is
/// stampable; the feed is then the rendering of the items extracted from a
/// tree that stands for that outcome — fixed by the input up to the
/// flattened attribute order.
pub fn process_html(html_content: &str) -> (r: Result<FeedOutput, FeedError>)
    ensures
        ({
            let representable = spec_parse_representable(html_content@, MAX_TREE_DEPTH as int);
            match r {
                Ok(out) => representable && exists|ns: Seq<HNode>, list: HElement, t0: int|
                    #![trigger hnodes_model(ns), spec_feed_xml(spec_extract_items(list.children@), t0)]
                    {
                        &&& Some(hnodes_model(ns)) == spec_parse(html_content@)
                        &&& spec_find_root(ns) == Some(list)
                        &&& out.skipped@.map_values(|s: String| s@) == spec_extract_skips(
                            list.children@,
                        )
                        &&& spec_extract_items(list.children@).len() <= t0 <= MAX_FEED_TIMESTAMP
                        &&& out.feed@ == spec_feed_xml(spec_extract_items(list.children@), t0)
                    },
                Err(e) => match e {
                    FeedError::ParseError => !representable,
                    FeedError::StructureNotFound => representable && exists|ns: Seq<HNode>|
                        #![trigger hnodes_model(ns)]
                        {
                            &&& Some(hnodes_model(ns)) == spec_parse(html_content@)
                            &&& spec_find_root(ns) is None
                        },
                    FeedError::TooLarge => representable && exists|ns: Seq<HNode>, list: HElement|
                        #![trigger hnodes_model(ns), spec_extract_items(list.children@)]
                        {
                            &&& Some(hnodes_model(ns)) == spec_parse(html_content@)
                            &&& spec_find_root(ns) == Some(list)
                            &&& spec_extract_items(list.children@).len() > MAX_FEED_TIMESTAMP
                        },
                },
            }
        }),
{
    let nodes = match crate::parse::parse_html_tree(html_content) {
        Ok(ns) => ns,
        Err(e) => {
            return Err(e);
        },
    };
    let list = match find_root_element(&nodes) {
        Some(l) => l,
        None => {
            proof {
                assert(Some(hnodes_model(nodes@)) == spec_parse(html_content@));
            }
            return Err(FeedError::StructureNotFound);
        },
    };
    let ghost gnodes = nodes@;
    let ghost glist = *list;
    let ghost gitems = spec_extract_items(glist.children@);
    let extraction = extract_news_items(list);
    if extraction.items.len() as u64 > MAX_FEED_TIMESTAMP as u64 {
        proof {
            assert(Some(hnodes_model(gnodes)) == spec_parse(html_content@));
            assert(extraction.items@.map_values(|it: crate::news::NewsItem| it@).len()
                == extraction.items@.len());
            assert(gitems.len() > MAX_FEED_TIMESTAMP);
        }
        return Err(FeedError::TooLarge);
    }
    let skipped = extraction.skipped;
    let ghost gviews = crate::news::spec_views(extraction.items@);
    let feed = write_atom_feed(extraction.items);
    proof {
        assert(gviews == gitems);
        let t0 = choose|t0: int|
            #![trigger spec_feed_xml(gviews, t0)]
            {
                &&& gviews.len() <= t0 <= MAX_FEED_TIMESTAMP
                &&& feed@ == spec_feed_xml(gviews, t0)
            };
        assert(Some(hnodes_model(gnodes)) == spec_parse(html_content@));
        assert(spec_find_root(gnodes) == Some(glist));
        assert(feed@ == spec_feed_xml(spec_extract_items(glist.children@), t0));
    }
    Ok(FeedOutput { feed, skipped })
}

} // verus!
