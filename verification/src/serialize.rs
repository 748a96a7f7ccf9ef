//! Re-serialization of an entry's markup: elements become explicit
//! open/close tag pairs, text is escaped, `href` attribute values are made
//! absolute, and every attribute value is escaped.

use vstd::prelude::*;
use vstd::string::*;
use crate::dom::{HNode, HElement};
use crate::escape::{spec_escape, escape_text};
use crate::dom::str_eq;

verus! {

/// The fixed origin every relative link is resolved against.
pub open spec fn spec_url_prefix() -> Seq<char> {
    "https://en.wikipedia.org"@
}

/// The origin as a string slice.
pub fn url_prefix() -> (r: &'static str)
    ensures
        r@ == spec_url_prefix(),
{
    "https://en.wikipedia.org"
}

/// One rendered attribute: ` name="value"` with the value escaped, an `href`
/// value additionally prefixed with the origin; a valueless attribute is
/// rendered bare.
pub open spec fn spec_attr_str(name: Seq<char>, value: Option<String>) -> Seq<char> {
    match value {
        Some(v) => if name == "href"@ {
            " "@ + name + "=\""@ + spec_url_prefix() + spec_escape(v@) + "\""@
        } else {
            " "@ + name + "=\""@ + spec_escape(v@) + "\""@
        },
        None => " "@ + name,
    }
}

/// All attributes rendered in order.
pub open spec fn spec_attrs_str(attrs: Seq<(String, Option<String>)>) -> Seq<char>
    decreases attrs.len(),
{
    if attrs.len() == 0 {
        Seq::empty()
    } else {
        spec_attr_str(attrs[0].0@, attrs[0].1) + spec_attrs_str(attrs.drop_first())
    }
}

/// One rendered node: text escaped, an element re-serialized, anything else
/// dropped.
pub open spec fn spec_node_str(n: HNode) -> Seq<char>
    decreases n,
{
    match n {
        HNode::Text(t) => spec_escape(t@),
        HNode::Element(e) => spec_elem_str(e),
        HNode::Other => Seq::empty(),
    }
}

/// An element rendered as `<name attrs>children</name>`; no void-element
/// special case, the closing tag is always explicit.
pub open spec fn spec_elem_str(e: HElement) -> Seq<char>
    decreases e,
{
    "<"@ + e.name@ + spec_attrs_str(e.attributes@) + ">"@ + spec_children_str(e.children@)
        + "</"@ + e.name@ + ">"@
}

/// A node sequence rendered in document order.
pub open spec fn spec_children_str(ns: Seq<HNode>) -> Seq<char>
    decreases ns,
{
    if ns.len() == 0 {
        Seq::empty()
    } else {
        spec_node_str(ns[0]) + spec_children_str(ns.drop_first())
    }
}

/// Rendering attributes distributes over appending one attribute.
proof fn lemma_attrs_snoc(s: Seq<(String, Option<String>)>, x: (String, Option<String>))
    ensures
        spec_attrs_str(s.push(x)) == spec_attrs_str(s) + spec_attr_str(x.0@, x.1),
    decreases s.len(),
{
    if s.len() == 0 {
        assert(s.push(x)[0] == x);
        assert(s.push(x).drop_first() =~= Seq::<(String, Option<String>)>::empty());
        assert(spec_attrs_str(Seq::<(String, Option<String>)>::empty())
            == Seq::<char>::empty());
        assert(spec_attr_str(x.0@, x.1) + Seq::<char>::empty() =~= spec_attr_str(x.0@, x.1));
        assert(Seq::<char>::empty() + spec_attr_str(x.0@, x.1) =~= spec_attr_str(x.0@, x.1));
    } else {
        assert(s.push(x)[0] == s[0]);
        assert(s.push(x).drop_first() =~= s.drop_first().push(x));
        lemma_attrs_snoc(s.drop_first(), x);
        assert(spec_attr_str(s[0].0@, s[0].1) + (spec_attrs_str(s.drop_first()) + spec_attr_str(
            x.0@,
            x.1,
        )) =~= (spec_attr_str(s[0].0@, s[0].1) + spec_attrs_str(s.drop_first())) + spec_attr_str(
            x.0@,
            x.1,
        ));
    }
}

/// Rendering a node sequence distributes over appending one node.
proof fn lemma_children_snoc(ns: Seq<HNode>, x: HNode)
    ensures
        spec_children_str(ns.push(x)) == spec_children_str(ns) + spec_node_str(x),
    decreases ns.len(),
{
    if ns.len() == 0 {
        assert(ns.push(x)[0] == x);
        assert(ns.push(x).drop_first() =~= Seq::<HNode>::empty());
        assert(spec_children_str(Seq::<HNode>::empty()) == Seq::<char>::empty());
        assert(spec_node_str(x) + Seq::<char>::empty() =~= spec_node_str(x));
        assert(Seq::<char>::empty() + spec_node_str(x) =~= spec_node_str(x));
    } else {
        assert(ns.push(x)[0] == ns[0]);
        assert(ns.push(x).drop_first() =~= ns.drop_first().push(x));
        lemma_children_snoc(ns.drop_first(), x);
        assert(spec_node_str(ns[0]) + (spec_children_str(ns.drop_first()) + spec_node_str(x))
            =~= (spec_node_str(ns[0]) + spec_children_str(ns.drop_first())) + spec_node_str(x));
    }
}

/// `sub` occurs as one contiguous run inside `s`.
pub open spec fn spec_has_run(s: Seq<char>, sub: Seq<char>) -> bool {
    exists|k: int|
        0 <= k && k + sub.len() <= s.len() && #[trigger] s.subrange(k, k + sub.len() as int) == sub
}

/// Every text is a run of itself.
pub(crate) proof fn lemma_run_whole(s: Seq<char>)
    ensures
        spec_has_run(s, s),
{
    assert(s.subrange(0, 0 + s.len() as int) =~= s);
}

/// A run of `a` is a run of `a + b`.
pub(crate) proof fn lemma_run_in_concat_left(a: Seq<char>, b: Seq<char>, sub: Seq<char>)
    requires
        spec_has_run(a, sub),
    ensures
        spec_has_run(a + b, sub),
{
    let k = choose|k: int|
        0 <= k && k + sub.len() <= a.len() && #[trigger] a.subrange(k, k + sub.len() as int) == sub;
    assert((a + b).subrange(k, k + sub.len() as int) =~= a.subrange(k, k + sub.len() as int));
}

/// A run of `b` is a run of `a + b`.
pub(crate) proof fn lemma_run_in_concat_right(a: Seq<char>, b: Seq<char>, sub: Seq<char>)
    requires
        spec_has_run(b, sub),
    ensures
        spec_has_run(a + b, sub),
{
    let k = choose|k: int|
        0 <= k && k + sub.len() <= b.len() && #[trigger] b.subrange(k, k + sub.len() as int) == sub;
    assert((a + b).subrange(a.len() + k, a.len() + k + sub.len() as int) =~= b.subrange(
        k,
        k + sub.len() as int,
    ));
}

/// The texts of a node's text descendants, in document order.
pub open spec fn spec_texts_of_node(n: HNode) -> Seq<Seq<char>>
    decreases n,
{
    match n {
        HNode::Text(t) => seq![t@],
        HNode::Element(e) => spec_texts(e.children@),
        HNode::Other => Seq::empty(),
    }
}

/// The texts of all text descendants of a node sequence, in document order.
pub open spec fn spec_texts(ns: Seq<HNode>) -> Seq<Seq<char>>
    decreases ns,
{
    if ns.len() == 0 {
        Seq::empty()
    } else {
        spec_texts_of_node(ns[0]) + spec_texts(ns.drop_first())
    }
}

/// Every text node, however deeply nested, is rendered escaped: its escaped
/// form stands as one contiguous run in the rendering of the node it sits
/// under. With the escaping round trip, the original text is recoverable
/// from the rendered fragment.
pub proof fn lemma_deep_texts_escaped_in_node(n: HNode, i: int)
    requires
        0 <= i < spec_texts_of_node(n).len(),
    ensures
        spec_has_run(spec_node_str(n), spec_escape(spec_texts_of_node(n)[i])),
    decreases n,
{
    match n {
        HNode::Text(t) => {
            assert(spec_texts_of_node(n)[0] == t@);
            let sub = spec_escape(t@);
            assert(spec_node_str(n) == sub);
            assert(sub.subrange(0, 0 + sub.len() as int) =~= sub);
        },
        HNode::Element(e) => {
            lemma_deep_texts_escaped_in_children(e.children@, i);
            let sub = spec_escape(spec_texts_of_node(n)[i]);
            let cs = spec_children_str(e.children@);
            let head = "<"@ + e.name@ + spec_attrs_str(e.attributes@) + ">"@;
            lemma_run_in_concat_right(head, cs, sub);
            lemma_run_in_concat_left(head + cs, "</"@, sub);
            lemma_run_in_concat_left(head + cs + "</"@, e.name@, sub);
            lemma_run_in_concat_left(head + cs + "</"@ + e.name@, ">"@, sub);
        },
        HNode::Other => {},
    }
}

/// The same, over a node sequence: every descendant text of `ns` is
/// rendered escaped somewhere in the rendering of `ns`.
pub proof fn lemma_deep_texts_escaped_in_children(ns: Seq<HNode>, i: int)
    requires
        0 <= i < spec_texts(ns).len(),
    ensures
        spec_has_run(spec_children_str(ns), spec_escape(spec_texts(ns)[i])),
    decreases ns,
{
    let head = spec_texts_of_node(ns[0]);
    if i < head.len() {
        lemma_deep_texts_escaped_in_node(ns[0], i);
        lemma_run_in_concat_left(
            spec_node_str(ns[0]),
            spec_children_str(ns.drop_first()),
            spec_escape(head[i]),
        );
    } else {
        lemma_deep_texts_escaped_in_children(ns.drop_first(), i - head.len());
        lemma_run_in_concat_right(
            spec_node_str(ns[0]),
            spec_children_str(ns.drop_first()),
            spec_escape(spec_texts(ns.drop_first())[i - head.len()]),
        );
    }
}

/// Renders an attribute list; `href` values come out absolute, all values
/// escaped. Order is the list's own order.
pub fn attributes_to_string(attr: &Vec<(String, Option<String>)>) -> (r: String)
    ensures
        r@ == spec_attrs_str(attr@),
{
    let mut out = String::new();
    let n = attr.len();
    proof {
        assert(attr@.take(0) =~= Seq::<(String, Option<String>)>::empty());
    }
    for i in 0..n
        invariant
            n == attr@.len(),
            out@ == spec_attrs_str(attr@.take(i as int)),
    {
        proof {
            assert(attr@.take(i + 1) =~= attr@.take(i as int).push(attr@[i as int]));
            lemma_attrs_snoc(attr@.take(i as int), attr@[i as int]);
        }
        let name = &attr[i].0;
        match &attr[i].1 {
            Some(v) => {
                out.append(" ");
                out.append(name.as_str());
                out.append("=\"");
                if str_eq(name.as_str(), "href") {
                    out.append(url_prefix());
                }
                let esc = escape_text(v.as_str());
                out.append(esc.as_str());
                out.append("\"");
            },
            None => {
                out.append(" ");
                out.append(name.as_str());
            },
        }
    }
    proof {
        assert(attr@.take(n as int) =~= attr@);
    }
    out
}

/// Renders the children of `e` in document order: text escaped, elements
/// re-serialized, other nodes dropped.
pub fn element_children_to_string(e: &HElement) -> (r: String)
    ensures
        r@ == spec_children_str(e.children@),
    decreases *e, 0int,
{
    let mut out = String::new();
    let n = e.children.len();
    proof {
        assert(e.children@.take(0) =~= Seq::<HNode>::empty());
    }
    for i in 0..n
        invariant
            n == e.children@.len(),
            out@ == spec_children_str(e.children@.take(i as int)),
        decreases n - i,
    {
        proof {
            assert(e.children@.take(i + 1) =~= e.children@.take(i as int).push(
                e.children@[i as int],
            ));
            lemma_children_snoc(e.children@.take(i as int), e.children@[i as int]);
        }
        match &e.children[i] {
            HNode::Text(t) => {
                let esc = escape_text(t.as_str());
                out.append(esc.as_str());
            },
            HNode::Element(ce) => {
                proof {
                    assert(e.children@[i as int] == HNode::Element(*ce));
                    assert(decreases_to!(*e, 0int => *ce, 1int));
                }
                let s = element_to_string(ce);
                out.append(s.as_str());
            },
            HNode::Other => {
                proof {
                    assert(out@ + spec_node_str(e.children@[i as int]) =~= out@);
                }
            },
        }
    }
    proof {
        assert(e.children@.take(n as int) =~= e.children@);
    }
    out
}

/// Renders `e` as an explicit open tag, its rendered children, and a close
/// tag.
pub fn element_to_string(e: &HElement) -> (r: String)
    ensures
        r@ == spec_elem_str(*e),
    decreases *e, 1int,
{
    let mut out = String::from_str("<");
    out.append(e.name.as_str());
    let attrs = attributes_to_string(&e.attributes);
    out.append(attrs.as_str());
    out.append(">");
    let kids = element_children_to_string(e);
    out.append(kids.as_str());
    out.append("</");
    out.append(e.name.as_str());
    out.append(">");
    out
}

} // verus!
