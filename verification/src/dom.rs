//! The document tree the extractor walks: plain nodes and elements, and the
//! depth-first searches that locate the feed's source list.

use vstd::prelude::*;
use vstd::string::*;

verus! {

/// One node of the parsed page: an element, a text run, or anything else
/// (comments and the like), which every rule here ignores.
pub enum HNode {
    Element(HElement),
    Text(String),
    Other,
}

/// An element: tag name, optional `id`, class list, the remaining attributes
/// in rendering order, and child nodes in document order.
pub struct HElement {
    pub name: String,
    pub id: Option<String>,
    pub classes: Vec<String>,
    pub attributes: Vec<(String, Option<String>)>,
    pub children: Vec<HNode>,
}

/// Whether one of `cs` reads exactly `c`.
pub open spec fn spec_has_class(cs: Seq<String>, c: Seq<char>) -> bool {
    exists|j: int| 0 <= j < cs.len() && cs[j]@ == c
}

/// First element named `name` in a depth-first, pre-order walk of `ns`.
pub open spec fn spec_find_element(ns: Seq<HNode>, name: Seq<char>) -> Option<HElement>
    decreases ns,
{
    if ns.len() == 0 {
        None
    } else {
        match ns[0] {
            HNode::Element(e) => {
                if e.name@ == name {
                    Some(e)
                } else {
                    match spec_find_element(e.children@, name) {
                        Some(r) => Some(r),
                        None => spec_find_element(ns.drop_first(), name),
                    }
                }
            },
            _ => spec_find_element(ns.drop_first(), name),
        }
    }
}

/// First element named `name` carrying id `id`, depth-first, pre-order.
pub open spec fn spec_find_element_with_id(ns: Seq<HNode>, name: Seq<char>, id: Seq<char>) -> Option<HElement>
    decreases ns,
{
    if ns.len() == 0 {
        None
    } else {
        match ns[0] {
            HNode::Element(e) => {
                if e.name@ == name && (e.id matches Some(i) && i@ == id) {
                    Some(e)
                } else {
                    match spec_find_element_with_id(e.children@, name, id) {
                        Some(r) => Some(r),
                        None => spec_find_element_with_id(ns.drop_first(), name, id),
                    }
                }
            },
            _ => spec_find_element_with_id(ns.drop_first(), name, id),
        }
    }
}

/// First element named `name` with class `class`, depth-first, pre-order.
pub open spec fn spec_find_element_with_class(ns: Seq<HNode>, name: Seq<char>, class: Seq<char>) -> Option<HElement>
    decreases ns,
{
    if ns.len() == 0 {
        None
    } else {
        match ns[0] {
            HNode::Element(e) => {
                if e.name@ == name && spec_has_class(e.classes@, class) {
                    Some(e)
                } else {
                    match spec_find_element_with_class(e.children@, name, class) {
                        Some(r) => Some(r),
                        None => spec_find_element_with_class(ns.drop_first(), name, class),
                    }
                }
            },
            _ => spec_find_element_with_class(ns.drop_first(), name, class),
        }
    }
}

/// First *direct* child of `ns` that is an element named `name`; no descent.
pub open spec fn spec_first_child_element(ns: Seq<HNode>, name: Seq<char>) -> Option<HElement>
    decreases ns,
{
    if ns.len() == 0 {
        None
    } else {
        match ns[0] {
            HNode::Element(e) => {
                if e.name@ == name {
                    Some(e)
                } else {
                    spec_first_child_element(ns.drop_first(), name)
                }
            },
            _ => spec_first_child_element(ns.drop_first(), name),
        }
    }
}

/// The target list: the first `ul` among the direct children of the
/// `mw-parser-output` container, itself the first such `div` inside the
/// `mw-content-text` container.
pub open spec fn spec_find_root(ns: Seq<HNode>) -> Option<HElement> {
    match spec_find_element_with_id(ns, "div"@, "mw-content-text"@) {
        None => None,
        Some(content) => match spec_find_element_with_class(content.children@, "div"@, "mw-parser-output"@) {
            None => None,
            Some(out) => spec_first_child_element(out.children@, "ul"@),
        },
    }
}

/// String equality by contents.
pub fn str_eq(a: &str, b: &str) -> (r: bool)
    ensures
        r == (a@ == b@),
{
    let sa = String::from_str(a);
    let sb = String::from_str(b);
    sa == sb
}

/// Whether `classes` holds an entry equal to `class`.
pub fn classes_contain(classes: &Vec<String>, class: &str) -> (r: bool)
    ensures
        r == spec_has_class(classes@, class@),
{
    let n = classes.len();
    for j in 0..n
        invariant
            n == classes@.len(),
            forall|k: int| 0 <= k < j ==> classes@[k]@ != class@,
    {
        if str_eq(classes[j].as_str(), class) {
            return true;
        }
    }
    false
}

/// Depth-first search for the first element named `element_name`.
pub fn find_element<'a>(children: &'a Vec<HNode>, element_name: &str) -> (r: Option<&'a HElement>)
    ensures
        match r {
            Some(e) => spec_find_element(children@, element_name@) == Some(*e),
            None => spec_find_element(children@, element_name@) is None,
        },
    decreases children@,
{
    let n = children.len();
    proof {
        assert(children@.skip(0) =~= children@);
    }
    for i in 0..n
        invariant
            n == children@.len(),
            spec_find_element(children@, element_name@)
                == spec_find_element(children@.skip(i as int), element_name@),
        decreases n - i,
    {
        proof {
            assert(children@.skip(i as int)[0] == children@[i as int]);
            assert(children@.skip(i as int).drop_first() =~= children@.skip(i + 1));
        }
        match &children[i] {
            HNode::Element(e) => {
                if str_eq(e.name.as_str(), element_name) {
                    return Some(e);
                }
                proof {
                    assert(children@[i as int] == HNode::Element(*e));
                    assert(decreases_to!(children@ => e.children@));
                }
                let sub = find_element(&e.children, element_name);
                if let Some(f) = sub {
                    return Some(f);
                }
            },
            _ => {},
        }
    }
    proof {
        assert(children@.skip(n as int) =~= Seq::<HNode>::empty());
    }
    None
}

/// Depth-first search for the first element named `element_name` whose id is `id`.
pub fn find_element_with_id<'a>(children: &'a Vec<HNode>, element_name: &str, id: &str) -> (r: Option<&'a HElement>)
    ensures
        match r {
            Some(e) => spec_find_element_with_id(children@, element_name@, id@) == Some(*e),
            None => spec_find_element_with_id(children@, element_name@, id@) is None,
        },
    decreases children@,
{
    let n = children.len();
    proof {
        assert(children@.skip(0) =~= children@);
    }
    for i in 0..n
        invariant
            n == children@.len(),
            spec_find_element_with_id(children@, element_name@, id@)
                == spec_find_element_with_id(children@.skip(i as int), element_name@, id@),
        decreases n - i,
    {
        proof {
            assert(children@.skip(i as int)[0] == children@[i as int]);
            assert(children@.skip(i as int).drop_first() =~= children@.skip(i + 1));
        }
        match &children[i] {
            HNode::Element(e) => {
                let id_matches = match &e.id {
                    Some(ei) => str_eq(ei.as_str(), id),
                    None => false,
                };
                if str_eq(e.name.as_str(), element_name) && id_matches {
                    return Some(e);
                }
                proof {
                    assert(children@[i as int] == HNode::Element(*e));
                    assert(decreases_to!(children@ => e.children@));
                }
                let sub = find_element_with_id(&e.children, element_name, id);
                if let Some(f) = sub {
                    return Some(f);
                }
            },
            _ => {},
        }
    }
    proof {
        assert(children@.skip(n as int) =~= Seq::<HNode>::empty());
    }
    None
}

/// Depth-first search for the first element named `element_name` carrying `class`.
pub fn find_element_with_class<'a>(children: &'a Vec<HNode>, element_name: &str, class: &str) -> (r: Option<&'a HElement>)
    ensures
        match r {
            Some(e) => spec_find_element_with_class(children@, element_name@, class@) == Some(*e),
            None => spec_find_element_with_class(children@, element_name@, class@) is None,
        },
    decreases children@,
{
    let n = children.len();
    proof {
        assert(children@.skip(0) =~= children@);
    }
    for i in 0..n
        invariant
            n == children@.len(),
            spec_find_element_with_class(children@, element_name@, class@)
                == spec_find_element_with_class(children@.skip(i as int), element_name@, class@),
        decreases n - i,
    {
        proof {
            assert(children@.skip(i as int)[0] == children@[i as int]);
            assert(children@.skip(i as int).drop_first() =~= children@.skip(i + 1));
        }
        match &children[i] {
            HNode::Element(e) => {
                if str_eq(e.name.as_str(), element_name) && classes_contain(&e.classes, class) {
                    return Some(e);
                }
                proof {
                    assert(children@[i as int] == HNode::Element(*e));
                    assert(decreases_to!(children@ => e.children@));
                }
                let sub = find_element_with_class(&e.children, element_name, class);
                if let Some(f) = sub {
                    return Some(f);
                }
            },
            _ => {},
        }
    }
    proof {
        assert(children@.skip(n as int) =~= Seq::<HNode>::empty());
    }
    None
}

/// First direct child of `children` that is an element named `element_name`.
pub fn first_child_element<'a>(children: &'a Vec<HNode>, element_name: &str) -> (r: Option<&'a HElement>)
    ensures
        match r {
            Some(e) => spec_first_child_element(children@, element_name@) == Some(*e),
            None => spec_first_child_element(children@, element_name@) is None,
        },
{
    let n = children.len();
    proof {
        assert(children@.skip(0) =~= children@);
    }
    for i in 0..n
        invariant
            n == children@.len(),
            spec_first_child_element(children@, element_name@)
                == spec_first_child_element(children@.skip(i as int), element_name@),
    {
        proof {
            assert(children@.skip(i as int)[0] == children@[i as int]);
            assert(children@.skip(i as int).drop_first() =~= children@.skip(i + 1));
        }
        match &children[i] {
            HNode::Element(e) => {
                if str_eq(e.name.as_str(), element_name) {
                    return Some(e);
                }
            },
            _ => {},
        }
    }
    proof {
        assert(children@.skip(n as int) =~= Seq::<HNode>::empty());
    }
    None
}

/// Locates the target list under the page's content containers: first the
/// `div` with id `mw-content-text`, inside it the `div` classed
/// `mw-parser-output`, and among that container's direct children the first
/// `ul`.
pub fn find_root_element<'a>(nodes: &'a Vec<HNode>) -> (r: Option<&'a HElement>)
    ensures
        match r {
            Some(e) => spec_find_root(nodes@) == Some(*e),
            None => spec_find_root(nodes@) is None,
        },
{
    let content = match find_element_with_id(nodes, "div", "mw-content-text") {
        Some(e) => e,
        None => {
            return None;
        },
    };
    let out = match find_element_with_class(&content.children, "div", "mw-parser-output") {
        Some(e) => e,
        None => {
            return None;
        },
    };
    first_child_element(&out.children, "ul")
}

} // verus!
