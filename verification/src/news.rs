//! News items and their extraction from the target list: each qualifying
//! `li` child yields one item, a failing child is skipped with a diagnostic,
//! and nothing else contributes.

use vstd::prelude::*;
use vstd::string::*;
use crate::dom::{HNode, HElement, spec_find_element, find_element, str_eq};
use crate::serialize::{
    spec_children_str, spec_url_prefix, element_children_to_string, url_prefix,
};

verus! {

/// One syndication entry: headline, re-serialized body markup, absolute
/// link, and the original relative href as the stable id.
pub struct NewsItem {
    pub title: String,
    pub body: String,
    pub url: String,
    pub id: String,
}

/// The mathematical shadow of a `NewsItem`.
pub ghost struct NewsItemV {
    pub title: Seq<char>,
    pub body: Seq<char>,
    pub url: Seq<char>,
    pub id: Seq<char>,
}

impl View for NewsItem {
    type V = NewsItemV;

    open spec fn view(&self) -> NewsItemV {
        NewsItemV { title: self.title@, body: self.body@, url: self.url@, id: self.id@ }
    }
}

/// A well-formed item: the url is exactly the origin followed by the id,
/// and headline and id are non-empty.
pub open spec fn spec_item_wf(it: NewsItemV) -> bool {
    &&& it.url == spec_url_prefix() + it.id
    &&& it.title.len() > 0
    &&& it.id.len() > 0
    &&& it.url.len() > 0
}

/// The items' mathematical shadows, in order.
pub open spec fn spec_views(items: Seq<NewsItem>) -> Seq<NewsItemV> {
    items.map_values(|it: NewsItem| it@)
}

/// First value bound to `key`, if any: `Some(None)` is a bare attribute.
pub open spec fn spec_attr_get(attrs: Seq<(String, Option<String>)>, key: Seq<char>) -> Option<
    Option<String>,
>
    decreases attrs.len(),
{
    if attrs.len() == 0 {
        None
    } else if attrs[0].0@ == key {
        Some(attrs[0].1)
    } else {
        spec_attr_get(attrs.drop_first(), key)
    }
}

/// The item an entry element yields, if it qualifies: a `b` descendant whose
/// first child is an `a` carrying non-empty `href` and `title` values. The
/// body is the re-serialization of the whole entry's children.
pub open spec fn spec_entry_item(e: HElement) -> Option<NewsItemV> {
    match spec_find_element(e.children@, "b"@) {
        None => None,
        Some(b) => if b.children@.len() == 0 {
            None
        } else {
            match b.children@[0] {
                HNode::Element(a) => if a.name@ != "a"@ {
                    None
                } else {
                    match spec_attr_get(a.attributes@, "href"@) {
                        Some(Some(href)) => match spec_attr_get(a.attributes@, "title"@) {
                            Some(Some(title)) => if href@.len() > 0 && title@.len() > 0 {
                                Some(
                                    NewsItemV {
                                        title: title@,
                                        body: spec_children_str(e.children@),
                                        url: spec_url_prefix() + href@,
                                        id: href@,
                                    },
                                )
                            } else {
                                None
                            },
                            _ => None,
                        },
                        _ => None,
                    }
                },
                _ => None,
            }
        },
    }
}

/// What one direct child of the target list contributes to the feed.
pub open spec fn spec_items_of_node(n: HNode) -> Seq<NewsItemV> {
    match n {
        HNode::Element(e) => if e.name@ == "li"@ {
            match spec_entry_item(e) {
                Some(it) => seq![it],
                None => Seq::empty(),
            }
        } else {
            Seq::empty()
        },
        _ => Seq::empty(),
    }
}

/// What one direct child contributes to the skip diagnostics: the failing
/// entry's re-serialized content.
pub open spec fn spec_skips_of_node(n: HNode) -> Seq<Seq<char>> {
    match n {
        HNode::Element(e) => if e.name@ == "li"@ && spec_entry_item(e) is None {
            seq![spec_children_str(e.children@)]
        } else {
            Seq::empty()
        },
        _ => Seq::empty(),
    }
}

/// The items extracted from the direct children of the target list, in
/// document order.
pub open spec fn spec_extract_items(ns: Seq<HNode>) -> Seq<NewsItemV>
    decreases ns.len(),
{
    if ns.len() == 0 {
        Seq::empty()
    } else {
        spec_items_of_node(ns[0]) + spec_extract_items(ns.drop_first())
    }
}

/// The skip diagnostics, in document order.
pub open spec fn spec_extract_skips(ns: Seq<HNode>) -> Seq<Seq<char>>
    decreases ns.len(),
{
    if ns.len() == 0 {
        Seq::empty()
    } else {
        spec_skips_of_node(ns[0]) + spec_extract_skips(ns.drop_first())
    }
}

/// How many direct children of the list are `li` elements.
pub open spec fn spec_li_count(ns: Seq<HNode>) -> nat
    decreases ns.len(),
{
    if ns.len() == 0 {
        0
    } else {
        (match ns[0] {
            HNode::Element(e) => if e.name@ == "li"@ {
                1nat
            } else {
                0nat
            },
            _ => 0nat,
        }) + spec_li_count(ns.drop_first())
    }
}

/// Every `li` child qualifies.
pub open spec fn spec_all_qualify(ns: Seq<HNode>) -> bool
    decreases ns.len(),
{
    if ns.len() == 0 {
        true
    } else {
        (match ns[0] {
            HNode::Element(e) => e.name@ == "li"@ ==> spec_entry_item(e) is Some,
            _ => true,
        }) && spec_all_qualify(ns.drop_first())
    }
}

/// No more items come out than the list has `li` children, and exactly as
/// many when every `li` child qualifies.
pub proof fn lemma_count_preservation(ns: Seq<HNode>)
    ensures
        spec_extract_items(ns).len() <= spec_li_count(ns),
        spec_all_qualify(ns) ==> spec_extract_items(ns).len() == spec_li_count(ns),
    decreases ns.len(),
{
    if ns.len() == 0 {
    } else {
        lemma_count_preservation(ns.drop_first());
    }
}

/// Every extracted item is well-formed: its url is the origin followed by
/// its id, so it begins with `https://en.wikipedia.org`, and headline, id
/// and url are non-empty.
pub proof fn lemma_url_absolutization(ns: Seq<HNode>)
    ensures
        forall|i: int|
            0 <= i < spec_extract_items(ns).len() ==> spec_item_wf(
                #[trigger] spec_extract_items(ns)[i],
            ),
        forall|i: int|
            0 <= i < spec_extract_items(ns).len() ==> (#[trigger] spec_extract_items(
                ns,
            )[i]).url.subrange(0, spec_url_prefix().len() as int) == spec_url_prefix(),
    decreases ns.len(),
{
    if ns.len() == 0 {
    } else {
        lemma_url_absolutization(ns.drop_first());
        let head = spec_items_of_node(ns[0]);
        assert forall|i: int| 0 <= i < spec_extract_items(ns).len() implies spec_item_wf(
            #[trigger] spec_extract_items(ns)[i],
        ) && spec_extract_items(ns)[i].url.subrange(0, spec_url_prefix().len() as int)
            == spec_url_prefix() by {
            let it = spec_extract_items(ns)[i];
            if i < head.len() {
                assert(it == head[i]);
                assert(spec_item_wf(it));
            } else {
                assert(it == spec_extract_items(ns.drop_first())[i - head.len()]);
            }
            assert(it.url.subrange(0, spec_url_prefix().len() as int) =~= spec_url_prefix());
        }
    }
}

/// Extraction is a function of the tree alone: two extractions from the
/// same list agree item for item and skip for skip. Any variation between
/// runs can therefore come only from what builds the tree, such as the
/// attribute order the parser's hash map hands over.
pub proof fn lemma_extraction_deterministic(
    ns: Seq<HNode>,
    items1: Seq<NewsItemV>,
    items2: Seq<NewsItemV>,
    skips1: Seq<Seq<char>>,
    skips2: Seq<Seq<char>>,
)
    requires
        items1 == spec_extract_items(ns),
        items2 == spec_extract_items(ns),
        skips1 == spec_extract_skips(ns),
        skips2 == spec_extract_skips(ns),
    ensures
        items1 == items2,
        skips1 == skips2,
{
}

/// Looks `key` up in an attribute list; the first binding wins.
pub fn attr_get<'a>(attrs: &'a Vec<(String, Option<String>)>, key: &str) -> (r: Option<
    &'a Option<String>,
>)
    ensures
        match r {
            Some(v) => spec_attr_get(attrs@, key@) == Some(*v),
            None => spec_attr_get(attrs@, key@) is None,
        },
{
    let n = attrs.len();
    proof {
        assert(attrs@.skip(0) =~= attrs@);
    }
    for i in 0..n
        invariant
            n == attrs@.len(),
            spec_attr_get(attrs@, key@) == spec_attr_get(attrs@.skip(i as int), key@),
    {
        proof {
            assert(attrs@.skip(i as int)[0] == attrs@[i as int]);
            assert(attrs@.skip(i as int).drop_first() =~= attrs@.skip(i + 1));
        }
        if str_eq(attrs[i].0.as_str(), key) {
            return Some(&attrs[i].1);
        }
    }
    proof {
        assert(attrs@.skip(n as int) =~= Seq::<(String, Option<String>)>::empty());
    }
    None
}

/// Converts one list entry, if it qualifies; `None` means the entry is
/// skipped.
pub fn element_to_news_item(e: &HElement) -> (r: Option<NewsItem>)
    ensures
        match r {
            Some(item) => spec_entry_item(*e) == Some(item@),
            None => spec_entry_item(*e) is None,
        },
{
    let b = match find_element(&e.children, "b") {
        Some(b) => b,
        None => {
            return None;
        },
    };
    if b.children.len() == 0 {
        return None;
    }
    let a = match &b.children[0] {
        HNode::Element(a) => a,
        _ => {
            return None;
        },
    };
    proof {
        assert(b.children@[0] == HNode::Element(*a));
    }
    if !str_eq(a.name.as_str(), "a") {
        return None;
    }
    let href = match attr_get(&a.attributes, "href") {
        Some(v) => match v {
            Some(h) => h,
            None => {
                return None;
            },
        },
        None => {
            return None;
        },
    };
    let title = match attr_get(&a.attributes, "title") {
        Some(v) => match v {
            Some(t) => t,
            None => {
                return None;
            },
        },
        None => {
            return None;
        },
    };
    if href.as_str().is_empty() || title.as_str().is_empty() {
        return None;
    }
    let mut url = String::from_str(url_prefix());
    url.append(href.as_str());
    let body = element_children_to_string(e);
    Some(NewsItem { title: title.clone(), body, url, id: href.clone() })
}

/// The items and skip diagnostics of one run.
pub struct Extraction {
    pub items: Vec<NewsItem>,
    pub skipped: Vec<String>,
}

/// Walks the direct children of the target list: each `li` either yields an
/// item or a skip diagnostic; other children are ignored.
pub fn extract_news_items(list: &HElement) -> (r: Extraction)
    ensures
        r.items@.map_values(|it: NewsItem| it@) == spec_extract_items(list.children@),
        r.skipped@.map_values(|s: String| s@) == spec_extract_skips(list.children@),
{
    let mut items: Vec<NewsItem> = Vec::new();
    let mut skipped: Vec<String> = Vec::new();
    let n = list.children.len();
    proof {
        assert(list.children@.skip(0) =~= list.children@);
        assert(items@.map_values(|it: NewsItem| it@) =~= Seq::<NewsItemV>::empty());
        assert(skipped@.map_values(|s: String| s@) =~= Seq::<Seq<char>>::empty());
        assert(spec_extract_items(list.children@) =~= Seq::<NewsItemV>::empty()
            + spec_extract_items(list.children@));
        assert(spec_extract_skips(list.children@) =~= Seq::<Seq<char>>::empty()
            + spec_extract_skips(list.children@));
    }
    for i in 0..n
        invariant
            n == list.children@.len(),
            spec_extract_items(list.children@) == items@.map_values(|it: NewsItem| it@)
                + spec_extract_items(list.children@.skip(i as int)),
            spec_extract_skips(list.children@) == skipped@.map_values(|s: String| s@)
                + spec_extract_skips(list.children@.skip(i as int)),
    {
        let ghost pre_items = items@.map_values(|it: NewsItem| it@);
        let ghost pre_skipped = skipped@.map_values(|s: String| s@);
        proof {
            assert(list.children@.skip(i as int)[0] == list.children@[i as int]);
            assert(list.children@.skip(i as int).drop_first() =~= list.children@.skip(i + 1));
        }
        match &list.children[i] {
            HNode::Element(e) => {
                if str_eq(e.name.as_str(), "li") {
                    match element_to_news_item(e) {
                        Some(item) => {
                            proof {
                                assert(spec_items_of_node(list.children@[i as int])
                                    =~= seq![item@]);
                            }
                            items.push(item);
                            proof {
                                assert(items@.map_values(|it: NewsItem| it@) =~= pre_items.push(
                                    item@,
                                ));
                                assert(pre_items.push(item@) + spec_extract_items(
                                    list.children@.skip(i + 1),
                                ) =~= pre_items + (seq![item@] + spec_extract_items(
                                    list.children@.skip(i + 1),
                                )));
                            }
                        },
                        None => {
                            let diag = element_children_to_string(e);
                            proof {
                                assert(spec_skips_of_node(list.children@[i as int])
                                    =~= seq![diag@]);
                            }
                            skipped.push(diag);
                            proof {
                                assert(skipped@.map_values(|s: String| s@) =~= pre_skipped.push(
                                    spec_children_str(e.children@),
                                ));
                                assert(pre_skipped.push(spec_children_str(e.children@))
                                    + spec_extract_skips(list.children@.skip(i + 1)) =~= pre_skipped
                                    + (seq![spec_children_str(e.children@)] + spec_extract_skips(
                                    list.children@.skip(i + 1),
                                )));
                            }
                        },
                    }
                } else {
                    proof {
                        assert(spec_items_of_node(list.children@[i as int])
                            =~= Seq::<NewsItemV>::empty());
                        assert(spec_skips_of_node(list.children@[i as int])
                            =~= Seq::<Seq<char>>::empty());
                        assert(Seq::<NewsItemV>::empty() + spec_extract_items(
                            list.children@.skip(i + 1),
                        ) =~= spec_extract_items(list.children@.skip(i + 1)));
                        assert(Seq::<Seq<char>>::empty() + spec_extract_skips(
                            list.children@.skip(i + 1),
                        ) =~= spec_extract_skips(list.children@.skip(i + 1)));
                    }
                }
            },
            _ => {
                proof {
                    assert(spec_items_of_node(list.children@[i as int])
                        =~= Seq::<NewsItemV>::empty());
                    assert(spec_skips_of_node(list.children@[i as int])
                        =~= Seq::<Seq<char>>::empty());
                    assert(Seq::<NewsItemV>::empty() + spec_extract_items(
                        list.children@.skip(i + 1),
                    ) =~= spec_extract_items(list.children@.skip(i + 1)));
                    assert(Seq::<Seq<char>>::empty() + spec_extract_skips(
                        list.children@.skip(i + 1),
                    ) =~= spec_extract_skips(list.children@.skip(i + 1)));
                }
            },
        }
    }
    proof {
        assert(list.children@.skip(n as int) =~= Seq::<HNode>::empty());
        assert(items@.map_values(|it: NewsItem| it@) + Seq::<NewsItemV>::empty() =~= items@
            .map_values(|it: NewsItem| it@));
        assert(skipped@.map_values(|s: String| s@) + Seq::<Seq<char>>::empty() =~= skipped@
            .map_values(|s: String| s@));
    }
    Extraction { items, skipped }
}

} // verus!
