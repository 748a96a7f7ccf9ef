//! The boundary to the HTML parser: `html_parser` turns the page text into
//! its own tree, and the trusted wrappers here hand that tree over piece by
//! piece so verified code can rebuild it as plain `HNode`s. The parse
//! outcome is named (`spec_parse`): the parser's grammar and tree building
//! are deterministic, so the outcome is a function of the text alone — only
//! the order in which the attribute hash map is later flattened varies, and
//! the model keeps attributes as an unordered map for that reason.

use vstd::prelude::*;
use crate::dom::{HNode, HElement};
use crate::FeedError;

verus! {

#[verifier::external_type_specification]
#[verifier::external_body]
pub struct ExDom(html_parser::Dom);

#[verifier::external_type_specification]
#[verifier::external_body]
pub struct ExNode(html_parser::Node);

#[verifier::external_type_specification]
#[verifier::external_body]
pub struct ExElement(html_parser::Element);

#[verifier::external_type_specification]
#[verifier::external_body]
pub struct ExError(html_parser::Error);

/// One node of the parse outcome, modelled with mathematical values.
pub ghost enum GNode {
    Element(GElement),
    Text(Seq<char>),
    Other,
}

/// One element of the parse outcome: attributes are an unordered map, so
/// the model does not depend on any iteration order.
pub ghost struct GElement {
    pub name: Seq<char>,
    pub id: Option<Seq<char>>,
    pub classes: Seq<Seq<char>>,
    pub attrs: Map<Seq<char>, Option<Seq<char>>>,
    pub children: Seq<GNode>,
}

/// What `html_parser::Dom::parse` yields on a given text: `None` where the
/// parser rejects it, otherwise the root nodes of the tree.
pub uninterp spec fn spec_parse(s: Seq<char>) -> Option<Seq<GNode>>;

/// What a parsed `Dom` holds: its root nodes.
pub uninterp spec fn dom_model(d: html_parser::Dom) -> Seq<GNode>;

/// What a parsed node holds.
pub uninterp spec fn node_model(n: html_parser::Node) -> GNode;

/// What a parsed element holds.
pub uninterp spec fn element_model(e: html_parser::Element) -> GElement;

/// The view of an optional string.
pub open spec fn opt_str_view(o: Option<String>) -> Option<Seq<char>> {
    match o {
        Some(s) => Some(s@),
        None => None,
    }
}

/// The views of a string sequence, in order.
pub open spec fn strs_view(ss: Seq<String>) -> Seq<Seq<char>> {
    ss.map_values(|s: String| s@)
}

/// An ordered attribute list read as an unordered map; a repeated key keeps
/// its last binding, though the lists handed over here never repeat a key.
pub open spec fn attrs_model(attrs: Seq<(String, Option<String>)>) -> Map<
    Seq<char>,
    Option<Seq<char>>,
>
    decreases attrs.len(),
{
    if attrs.len() == 0 {
        Map::empty()
    } else {
        attrs_model(attrs.drop_last()).insert(attrs.last().0@, opt_str_view(attrs.last().1))
    }
}

/// The model a plain node stands for.
pub open spec fn hnode_model(n: HNode) -> GNode
    decreases n,
{
    match n {
        HNode::Element(e) => GNode::Element(helement_model(e)),
        HNode::Text(t) => GNode::Text(t@),
        HNode::Other => GNode::Other,
    }
}

/// The model a plain element stands for.
pub open spec fn helement_model(e: HElement) -> GElement
    decreases e,
{
    GElement {
        name: e.name@,
        id: opt_str_view(e.id),
        classes: strs_view(e.classes@),
        attrs: attrs_model(e.attributes@),
        children: hnodes_model(e.children@),
    }
}

/// The models of a plain node sequence, in order.
pub open spec fn hnodes_model(ns: Seq<HNode>) -> Seq<GNode>
    decreases ns,
{
    if ns.len() == 0 {
        Seq::empty()
    } else {
        seq![hnode_model(ns[0])] + hnodes_model(ns.drop_first())
    }
}

/// Whether a modelled node nests no deeper than `d` levels of elements.
pub open spec fn gnode_within(g: GNode, d: int) -> bool
    decreases g,
{
    match g {
        GNode::Element(e) => d >= 1 && forall|i: int|
            0 <= i < e.children.len() ==> gnode_within(#[trigger] e.children[i], d - 1),
        _ => true,
    }
}

/// Whether every modelled root nests no deeper than `d` levels.
pub open spec fn gnodes_within(gs: Seq<GNode>, d: int) -> bool {
    forall|i: int| 0 <= i < gs.len() ==> gnode_within(#[trigger] gs[i], d)
}

/// A parse succeeded and its outcome fits the converter's depth bound.
pub open spec fn spec_parse_representable(s: Seq<char>, d: int) -> bool {
    spec_parse(s) matches Some(g) && gnodes_within(g, d)
}

/// An `html_parser` node told apart by variant; comments and anything else
/// fall under `Other`.
pub enum RawNode {
    Elem(html_parser::Element),
    Text(String),
    Other,
}

/// The fields of an `html_parser` element, the attribute map flattened into
/// pairs.
pub struct RawElement {
    pub name: String,
    pub id: Option<String>,
    pub classes: Vec<String>,
    pub attributes: Vec<(String, Option<String>)>,
    pub children: Vec<html_parser::Node>,
}

/// How deep a parsed tree may nest before conversion gives up; real pages
/// stay far below this.
pub const MAX_TREE_DEPTH: u32 = 2048;

/// Relies on `html_parser::Dom::parse`: parses HTML text into a document
/// tree, or reports why it cannot. The grammar and the tree building are
/// deterministic, so success and the resulting tree are functions of the
/// text alone.
#[verifier::external_body]
fn parse_dom(html: &str) -> (r: Result<html_parser::Dom, html_parser::Error>)
    ensures
        r is Ok <==> spec_parse(html@) is Some,
        r matches Ok(d) ==> Some(dom_model(d)) == spec_parse(html@),
{
    html_parser::Dom::parse(html)
}

/// Relies on `html_parser::Dom`'s public `children` field: the root nodes
/// of the parsed tree, in document order.
#[verifier::external_body]
fn dom_children(dom: html_parser::Dom) -> (r: Vec<html_parser::Node>)
    ensures
        r@.len() == dom_model(dom).len(),
        forall|i: int| 0 <= i < r@.len() ==> node_model(#[trigger] r@[i]) == dom_model(dom)[i],
{
    dom.children
}

/// Relies on `html_parser::Node`'s three variants: `Element`, `Text` and
/// `Comment`; the comment text is of no use here and falls under `Other`.
#[verifier::external_body]
fn split_node(n: html_parser::Node) -> (r: RawNode)
    ensures
        match r {
            RawNode::Elem(e) => node_model(n) == GNode::Element(element_model(e)),
            RawNode::Text(t) => node_model(n) == GNode::Text(t@),
            RawNode::Other => node_model(n) == GNode::Other,
        },
{
    match n {
        html_parser::Node::Element(e) => RawNode::Elem(e),
        html_parser::Node::Text(t) => RawNode::Text(t),
        html_parser::Node::Comment(_) => RawNode::Other,
    }
}

/// Relies on `html_parser::Element`'s public fields: `name`, `id`,
/// `classes`, `attributes` (which excludes `id` and `class`) and
/// `children`. The attribute map is a hash map with unique keys; it is
/// flattened one pair per key, in an iteration order that may differ
/// between runs, which is why only the set of bindings is promised.
#[verifier::external_body]
fn split_element(e: html_parser::Element) -> (r: RawElement)
    ensures
        r.name@ == element_model(e).name,
        opt_str_view(r.id) == element_model(e).id,
        strs_view(r.classes@) == element_model(e).classes,
        r.children@.len() == element_model(e).children.len(),
        forall|i: int|
            0 <= i < r.children@.len() ==> node_model(#[trigger] r.children@[i]) == element_model(
                e,
            ).children[i],
        forall|i: int, j: int|
            0 <= i < j < r.attributes@.len() ==> (#[trigger] r.attributes@[i]).0@ != (
            #[trigger] r.attributes@[j]).0@,
        forall|i: int|
            0 <= i < r.attributes@.len() ==> element_model(e).attrs.contains_key(
                (#[trigger] r.attributes@[i]).0@,
            ) && element_model(e).attrs[r.attributes@[i].0@] == opt_str_view(r.attributes@[i].1),
        forall|k: Seq<char>|
            #[trigger] element_model(e).attrs.contains_key(k) ==> exists|i: int|
                0 <= i < r.attributes@.len() && (#[trigger] r.attributes@[i]).0@ == k,
{
    RawElement {
        name: e.name,
        id: e.id,
        classes: e.classes,
        attributes: e.attributes.into_iter().collect(),
        children: e.children,
    }
}

/// Reading a distinct-key attribute list as a map binds each listed key to
/// its listed value and nothing else.
proof fn lemma_attrs_model_keys(v: Seq<(String, Option<String>)>)
    requires
        forall|i: int, j: int| 0 <= i < j < v.len() ==> (#[trigger] v[i]).0@ != (#[trigger] v[j]).0@,
    ensures
        forall|k: Seq<char>|
            #[trigger] attrs_model(v).contains_key(k) <==> exists|i: int|
                0 <= i < v.len() && (#[trigger] v[i]).0@ == k,
        forall|i: int|
            0 <= i < v.len() ==> attrs_model(v)[(#[trigger] v[i]).0@] == opt_str_view(v[i].1),
    decreases v.len(),
{
    if v.len() == 0 {
    } else {
        let dl = v.drop_last();
        lemma_attrs_model_keys(dl);
        let last = v.last();
        assert forall|k: Seq<char>| #[trigger] attrs_model(v).contains_key(k) implies exists|i: int|
            0 <= i < v.len() && (#[trigger] v[i]).0@ == k by {
            if k == last.0@ {
                assert(v[v.len() - 1].0@ == k);
            } else {
                assert(attrs_model(dl).contains_key(k));
                let i = choose|i: int| 0 <= i < dl.len() && (#[trigger] dl[i]).0@ == k;
                assert(v[i].0@ == k);
            }
        }
        assert forall|k: Seq<char>|
            exists|i: int| 0 <= i < v.len() && (#[trigger] v[i]).0@ == k implies #[trigger] attrs_model(
            v,
        ).contains_key(k) by {
            let i = choose|i: int| 0 <= i < v.len() && (#[trigger] v[i]).0@ == k;
            if i < v.len() - 1 {
                assert(dl[i].0@ == k);
                assert(attrs_model(dl).contains_key(k));
            }
        }
        assert forall|i: int| 0 <= i < v.len() implies attrs_model(v)[(#[trigger] v[i]).0@]
            == opt_str_view(v[i].1) by {
            if i < v.len() - 1 {
                assert(v[i].0@ != last.0@);
                assert(dl[i] == v[i]);
                assert(attrs_model(v)[v[i].0@] == attrs_model(dl)[v[i].0@]);
            }
        }
    }
}

/// A distinct-key attribute list whose bindings are exactly those of `m`
/// reads as `m`.
proof fn lemma_attrs_model_agrees(
    v: Seq<(String, Option<String>)>,
    m: Map<Seq<char>, Option<Seq<char>>>,
)
    requires
        forall|i: int, j: int| 0 <= i < j < v.len() ==> (#[trigger] v[i]).0@ != (#[trigger] v[j]).0@,
        forall|i: int|
            0 <= i < v.len() ==> m.contains_key((#[trigger] v[i]).0@) && m[v[i].0@] == opt_str_view(
                v[i].1,
            ),
        forall|k: Seq<char>|
            #[trigger] m.contains_key(k) ==> exists|i: int|
                0 <= i < v.len() && (#[trigger] v[i]).0@ == k,
    ensures
        attrs_model(v) == m,
{
    lemma_attrs_model_keys(v);
    assert forall|k: Seq<char>| #[trigger] attrs_model(v).contains_key(k) implies m.contains_key(k)
        && attrs_model(v)[k] == m[k] by {
        let i = choose|i: int| 0 <= i < v.len() && (#[trigger] v[i]).0@ == k;
        assert(attrs_model(v)[k] == opt_str_view(v[i].1));
    }
    assert forall|k: Seq<char>| #[trigger] m.contains_key(k) implies attrs_model(v).contains_key(
        k,
    ) by {
        let i = choose|i: int| 0 <= i < v.len() && (#[trigger] v[i]).0@ == k;
    }
    assert(attrs_model(v) =~= m);
}

/// Reading node models distributes over appending one node.
proof fn lemma_hnodes_model_snoc(ns: Seq<HNode>, x: HNode)
    ensures
        hnodes_model(ns.push(x)) == hnodes_model(ns) + seq![hnode_model(x)],
    decreases ns.len(),
{
    if ns.len() == 0 {
        assert(ns.push(x)[0] == x);
        assert(ns.push(x).drop_first() =~= Seq::<HNode>::empty());
        assert(hnodes_model(Seq::<HNode>::empty()) == Seq::<GNode>::empty());
        assert(seq![hnode_model(x)] + Seq::<GNode>::empty() =~= seq![hnode_model(x)]);
        assert(Seq::<GNode>::empty() + seq![hnode_model(x)] =~= seq![hnode_model(x)]);
    } else {
        assert(ns.push(x)[0] == ns[0]);
        assert(ns.push(x).drop_first() =~= ns.drop_first().push(x));
        lemma_hnodes_model_snoc(ns.drop_first(), x);
        assert(seq![hnode_model(ns[0])] + (hnodes_model(ns.drop_first()) + seq![hnode_model(x)])
            =~= (seq![hnode_model(ns[0])] + hnodes_model(ns.drop_first())) + seq![hnode_model(x)]);
    }
}

/// Rebuilds one parsed node as a plain `HNode`, descending at most `depth`
/// levels. The result stands for exactly the node's model; `None` comes
/// back precisely when the model nests beyond `depth`.
#[verifier::loop_isolation(false)]
fn convert_node(n: html_parser::Node, depth: u32) -> (r: Option<HNode>)
    ensures
        r matches Some(h) ==> hnode_model(h) == node_model(n) && gnode_within(
            node_model(n),
            depth as int,
        ),
        r is None ==> !gnode_within(node_model(n), depth as int),
    decreases depth,
{
    match split_node(n) {
        RawNode::Text(t) => Some(HNode::Text(t)),
        RawNode::Other => Some(HNode::Other),
        RawNode::Elem(e) => {
            let ghost em = element_model(e);
            if depth == 0 {
                return None;
            }
            let parts = split_element(e);
            let ghost gkids = em.children;
            let mut raw = parts.children;
            let ghost raw_full = raw@;
            let mut children: Vec<HNode> = Vec::new();
            proof {
                assert(hnodes_model(children@) =~= gkids.take(0));
            }
            while raw.len() > 0
                invariant
                    children@.len() + raw@.len() == gkids.len(),
                    forall|j: int|
                        0 <= j < raw@.len() ==> node_model(#[trigger] raw@[j]) == gkids[children@.len()
                            + j],
                    hnodes_model(children@) == gkids.take(children@.len() as int),
                    forall|j: int|
                        0 <= j < children@.len() ==> gnode_within(
                            #[trigger] gkids[j],
                            depth - 1,
                        ),
                decreases raw@.len(),
            {
                let ghost i = children@.len() as int;
                let c = raw.remove(0);
                proof {
                    assert(node_model(c) == gkids[i]);
                }
                match convert_node(c, depth - 1) {
                    Some(h) => {
                        proof {
                            lemma_hnodes_model_snoc(children@, h);
                            assert(gkids.take(i + 1) =~= gkids.take(i) + seq![gkids[i]]);
                        }
                        children.push(h);
                    },
                    None => {
                        proof {
                            assert(!gnode_within(gkids[i], depth - 1));
                            assert(node_model(n) == GNode::Element(em));
                            assert(!gnode_within(node_model(n), depth as int)) by {
                                if gnode_within(GNode::Element(em), depth as int) {
                                    assert(gnode_within(em.children[i], depth - 1));
                                }
                            }
                        }
                        return None;
                    },
                }
            }
            proof {
                assert(gkids.take(gkids.len() as int) =~= gkids);
            }
            let h = HElement {
                name: parts.name,
                id: parts.id,
                classes: parts.classes,
                attributes: parts.attributes,
                children,
            };
            proof {
                lemma_attrs_model_agrees(h.attributes@, em.attrs);
                assert(helement_model(h).name == em.name);
                assert(helement_model(h).id == em.id);
                assert(helement_model(h).classes == em.classes);
                assert(helement_model(h).attrs == em.attrs);
                assert(helement_model(h).children == em.children);
                assert(helement_model(h) == em);
                assert(node_model(n) == GNode::Element(em));
                assert(gnode_within(node_model(n), depth as int)) by {
                    assert(forall|j: int|
                        0 <= j < em.children.len() ==> gnode_within(
                            #[trigger] em.children[j],
                            depth - 1,
                        ));
                }
            }
            Some(HNode::Element(h))
        },
    }
}

/// Parses the page text and rebuilds the whole tree as plain nodes, whose
/// models are exactly the named parse outcome. `ParseError` comes back
/// precisely when the parser rejects the text or its tree nests beyond
/// `MAX_TREE_DEPTH`.
#[verifier::loop_isolation(false)]
pub fn parse_html_tree(html: &str) -> (r: Result<Vec<HNode>, FeedError>)
    ensures
        match r {
            Ok(ns) => spec_parse_representable(html@, MAX_TREE_DEPTH as int) && Some(
                hnodes_model(ns@),
            ) == spec_parse(html@),
            Err(e) => e == FeedError::ParseError && !spec_parse_representable(
                html@,
                MAX_TREE_DEPTH as int,
            ),
        },
{
    let dom = match parse_dom(html) {
        Ok(d) => d,
        Err(_) => {
            return Err(FeedError::ParseError);
        },
    };
    let ghost g = dom_model(dom);
    let mut raw = dom_children(dom);
    let mut out: Vec<HNode> = Vec::new();
    proof {
        assert(hnodes_model(out@) =~= g.take(0));
    }
    while raw.len() > 0
        invariant
            out@.len() + raw@.len() == g.len(),
            forall|j: int|
                0 <= j < raw@.len() ==> node_model(#[trigger] raw@[j]) == g[out@.len() + j],
            hnodes_model(out@) == g.take(out@.len() as int),
            forall|j: int|
                0 <= j < out@.len() ==> gnode_within(#[trigger] g[j], MAX_TREE_DEPTH as int),
        decreases raw@.len(),
    {
        let ghost i = out@.len() as int;
        let c = raw.remove(0);
        proof {
            assert(node_model(c) == g[i]);
        }
        match convert_node(c, MAX_TREE_DEPTH) {
            Some(h) => {
                proof {
                    lemma_hnodes_model_snoc(out@, h);
                    assert(g.take(i + 1) =~= g.take(i) + seq![g[i]]);
                }
                out.push(h);
            },
            None => {
                proof {
                    assert(!gnode_within(g[i], MAX_TREE_DEPTH as int));
                    assert(!gnodes_within(g, MAX_TREE_DEPTH as int));
                }
                return Err(FeedError::ParseError);
            },
        }
    }
    proof {
        assert(g.take(g.len() as int) =~= g);
        assert(gnodes_within(g, MAX_TREE_DEPTH as int));
    }
    Ok(out)
}

} // verus!
