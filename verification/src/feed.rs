//! Rendering the Atom document: a fixed envelope, one `entry` block per
//! item, and synthetic strictly decreasing timestamps counted down one
//! second at a time from a base stamp.

use vstd::prelude::*;
use vstd::string::*;
use crate::news::{NewsItem, NewsItemV, spec_views};
use crate::escape::{spec_escape, escape_text};
use crate::clock::{rfc3339_utc_of, format_rfc3339_utc, now_unix_seconds, MAX_FEED_TIMESTAMP};
use crate::serialize::{
    spec_has_run, lemma_run_whole, lemma_run_in_concat_left, lemma_run_in_concat_right,
};

verus! {

/// The stamp of the entry at position `i` when rendering starts from `t0`:
/// one second older per position, the first entry already one second before
/// `t0`.
pub open spec fn spec_entry_timestamp(t0: int, i: int) -> int {
    t0 - 1 - i
}

/// The stamps of `n` entries rendered from `t0`, in order.
pub open spec fn spec_entry_times(t0: int, n: nat) -> Seq<int> {
    Seq::new(n, |i: int| spec_entry_timestamp(t0, i))
}

/// One `entry` block: escaped headline, absolute link, the relative href as
/// id, the given stamp as both `published` and `updated`, and the body
/// wrapped in a namespaced `div` as XHTML content.
pub open spec fn spec_entry_xml(it: NewsItemV, ts: Seq<char>) -> Seq<char> {
    "\n    <entry>\n        <title>"@ + spec_escape(it.title) + "</title>\n        <link href=\""@
        + spec_escape(it.url) + "\"/>\n        <id>"@ + spec_escape(it.id)
        + "</id>\n        <published>"@ + ts + "</published>\n        <updated>"@ + ts
        + "</updated>\n        <content type=\"xhtml\"><div xmlns=\"http://www.w3.org/1999/xhtml\">"@
        + it.body + "</div></content>\n    </entry>"@
}

/// The concatenated entry blocks, the running stamp falling by one second
/// per entry.
pub open spec fn spec_entries_xml(items: Seq<NewsItemV>, t: int) -> Seq<char>
    decreases items.len(),
{
    if items.len() == 0 {
        Seq::empty()
    } else {
        spec_entry_xml(items[0], rfc3339_utc_of(t - 1)) + spec_entries_xml(
            items.drop_first(),
            t - 1,
        )
    }
}

/// The whole document: XML declaration, fixed feed title, self-link and
/// constant uuid id, the document stamp `t0` less the number of entries,
/// then the entries.
pub open spec fn spec_feed_xml(items: Seq<NewsItemV>, t0: int) -> Seq<char> {
    "<?xml version=\"1.0\" encoding=\"utf-8\"?>\n<feed xmlns=\"http://www.w3.org/2005/Atom\">\n    <title>Wikipedia In The News</title>\n    <link href=\"https://en.wikipedia.org/wiki/Template:In_the_news\"/>\n    <id>urn:uuid:e0579856-2b18-4a8e-8c76-771c24206362</id>\n    <updated>"@
        + rfc3339_utc_of(t0 - items.len()) + "</updated>"@ + spec_entries_xml(items, t0)
        + "\n</feed>\n"@
}

/// The per-entry stamps fall by exactly one second per step, and the
/// document's own stamp, `t0` less the entry count, equals the last
/// entry's.
pub proof fn lemma_timestamp_monotonicity(t0: int, n: nat)
    ensures
        forall|i: int|
            0 <= i < n - 1 ==> #[trigger] spec_entry_times(t0, n)[i + 1] == spec_entry_times(
                t0,
                n,
            )[i] - 1,
        n > 0 ==> spec_entry_times(t0, n)[n - 1] == t0 - n,
{
}

/// The rendered entries carry exactly those stamps: the block at position
/// `i` opens the rendering of the items from `i` on, stamped
/// `spec_entry_timestamp(t0, i)`.
pub proof fn lemma_entries_xml_stamps(items: Seq<NewsItemV>, t0: int, i: int)
    requires
        0 <= i < items.len(),
    ensures
        spec_entries_xml(items.skip(i), t0 - i) == spec_entry_xml(
            items[i],
            rfc3339_utc_of(spec_entry_timestamp(t0, i)),
        ) + spec_entries_xml(items.skip(i + 1), t0 - i - 1),
{
    assert(items.skip(i)[0] == items[i]);
    assert(items.skip(i).drop_first() =~= items.skip(i + 1));
}

/// An item's body stands verbatim in its rendered `entry` block.
proof fn lemma_body_in_entry(it: NewsItemV, ts: Seq<char>)
    ensures
        spec_has_run(spec_entry_xml(it, ts), it.body),
{
    let prefix = "\n    <entry>\n        <title>"@ + spec_escape(it.title)
        + "</title>\n        <link href=\""@ + spec_escape(it.url) + "\"/>\n        <id>"@
        + spec_escape(it.id) + "</id>\n        <published>"@ + ts
        + "</published>\n        <updated>"@ + ts
        + "</updated>\n        <content type=\"xhtml\"><div xmlns=\"http://www.w3.org/1999/xhtml\">"@;
    lemma_run_whole(it.body);
    lemma_run_in_concat_right(prefix, it.body, it.body);
    lemma_run_in_concat_left(prefix + it.body, "</div></content>\n    </entry>"@, it.body);
    assert(spec_entry_xml(it, ts) == prefix + it.body + "</div></content>\n    </entry>"@);
}

/// An item's body stands verbatim in the rendered entry blocks.
proof fn lemma_body_in_entries(items: Seq<NewsItemV>, t: int, i: int)
    requires
        0 <= i < items.len(),
    ensures
        spec_has_run(spec_entries_xml(items, t), items[i].body),
    decreases items.len(),
{
    let head = spec_entry_xml(items[0], rfc3339_utc_of(t - 1));
    let rest = spec_entries_xml(items.drop_first(), t - 1);
    if i == 0 {
        lemma_body_in_entry(items[0], rfc3339_utc_of(t - 1));
        lemma_run_in_concat_left(head, rest, items[0].body);
    } else {
        lemma_body_in_entries(items.drop_first(), t - 1, i - 1);
        assert(items.drop_first()[i - 1] == items[i]);
        lemma_run_in_concat_right(head, rest, items[i].body);
    }
}

/// Each item's body stands verbatim in the rendered document. Together with
/// the serializer's deep-escaping law and the escaping round trip, every
/// text of a qualifying entry is recoverable from the feed itself.
pub proof fn lemma_bodies_embedded_in_feed(items: Seq<NewsItemV>, t0: int, i: int)
    requires
        0 <= i < items.len(),
    ensures
        spec_has_run(spec_feed_xml(items, t0), items[i].body),
{
    let header =
        "<?xml version=\"1.0\" encoding=\"utf-8\"?>\n<feed xmlns=\"http://www.w3.org/2005/Atom\">\n    <title>Wikipedia In The News</title>\n    <link href=\"https://en.wikipedia.org/wiki/Template:In_the_news\"/>\n    <id>urn:uuid:e0579856-2b18-4a8e-8c76-771c24206362</id>\n    <updated>"@
        + rfc3339_utc_of(t0 - items.len()) + "</updated>"@;
    let entries = spec_entries_xml(items, t0);
    lemma_body_in_entries(items, t0, i);
    lemma_run_in_concat_right(header, entries, items[i].body);
    lemma_run_in_concat_left(header + entries, "\n</feed>\n"@, items[i].body);
    assert(spec_feed_xml(items, t0) == header + entries + "\n</feed>\n"@);
}

/// Renders one `entry` block with the given stamp text.
#[verifier::rlimit(60)]
fn render_entry(item: &NewsItem, ts: &str) -> (r: String)
    ensures
        r@ == spec_entry_xml(item@, ts@),
{
    let mut out = String::from_str("\n    <entry>\n        <title>");
    let et = escape_text(item.title.as_str());
    out.append(et.as_str());
    out.append("</title>\n        <link href=\"");
    let eu = escape_text(item.url.as_str());
    out.append(eu.as_str());
    out.append("\"/>\n        <id>");
    let ei = escape_text(item.id.as_str());
    out.append(ei.as_str());
    out.append("</id>\n        <published>");
    out.append(ts);
    out.append("</published>\n        <updated>");
    out.append(ts);
    out.append(
        "</updated>\n        <content type=\"xhtml\"><div xmlns=\"http://www.w3.org/1999/xhtml\">",
    );
    out.append(item.body.as_str());
    out.append("</div></content>\n    </entry>");
    out
}

/// Renders the feed for a given base stamp `t0`.
pub fn render_feed(list: &Vec<NewsItem>, t0: i64) -> (r: String)
    requires
        list@.len() <= t0 <= MAX_FEED_TIMESTAMP,
    ensures
        r@ == spec_feed_xml(list@.map_values(|it: NewsItem| it@), t0 as int),
{
    let ghost vitems = list@.map_values(|it: NewsItem| it@);
    let mut entries = String::new();
    let n = list.len();
    proof {
        assert(vitems.skip(0) =~= vitems);
        assert(Seq::<char>::empty() + spec_entries_xml(vitems, t0 as int) =~= spec_entries_xml(
            vitems,
            t0 as int,
        ));
    }
    for i in 0..n
        invariant
            n == list@.len(),
            vitems == list@.map_values(|it: NewsItem| it@),
            n <= t0 <= MAX_FEED_TIMESTAMP,
            spec_entries_xml(vitems, t0 as int) == entries@ + spec_entries_xml(
                vitems.skip(i as int),
                t0 - i,
            ),
    {
        let ts = format_rfc3339_utc(t0 - (i as i64) - 1);
        let entry = render_entry(&list[i], ts.as_str());
        entries.append(entry.as_str());
        proof {
            assert(vitems.skip(i as int)[0] == vitems[i as int]);
            assert(vitems[i as int] == list@[i as int]@);
            assert(vitems.skip(i as int).drop_first() =~= vitems.skip(i + 1));
        }
    }
    proof {
        assert(vitems.skip(n as int) =~= Seq::<NewsItemV>::empty());
        assert(entries@ + Seq::<char>::empty() =~= entries@);
    }
    let doc_ts = format_rfc3339_utc(t0 - (n as i64));
    let mut out = String::from_str(
        "<?xml version=\"1.0\" encoding=\"utf-8\"?>\n<feed xmlns=\"http://www.w3.org/2005/Atom\">\n    <title>Wikipedia In The News</title>\n    <link href=\"https://en.wikipedia.org/wiki/Template:In_the_news\"/>\n    <id>urn:uuid:e0579856-2b18-4a8e-8c76-771c24206362</id>\n    <updated>",
    );
    out.append(doc_ts.as_str());
    out.append("</updated>");
    out.append(entries.as_str());
    out.append("\n</feed>\n");
    proof {
        assert(out@ =~= spec_feed_xml(vitems, t0 as int));
    }
    out
}

/// Renders the feed from the clock: the base stamp is the current time,
/// pushed inside the renderer's admissible range if the clock reads outside
/// it.
pub fn write_atom_feed(list: Vec<NewsItem>) -> (r: String)
    requires
        list@.len() <= MAX_FEED_TIMESTAMP,
    ensures
        exists|t0: int|
            #![trigger spec_feed_xml(spec_views(list@), t0)]
            {
                &&& spec_views(list@).len() <= t0 <= MAX_FEED_TIMESTAMP
                &&& r@ == spec_feed_xml(spec_views(list@), t0)
            },
{
    let now = now_unix_seconds();
    let lo = list.len() as i64;
    let t0 = if now < lo {
        lo
    } else if now > MAX_FEED_TIMESTAMP {
        MAX_FEED_TIMESTAMP
    } else {
        now
    };
    let r = render_feed(&list, t0);
    proof {
        assert(r@ == spec_feed_xml(spec_views(list@), t0 as int));
    }
    r
}

} // verus!
