//! The feed list: an OPML document whose outlines name the feeds to
//! deduplicate. Each new outline is renamed with a `DD_` prefix and pointed
//! at the deduplicated copy of its feed, published under a unique file name;
//! outlines renamed on an earlier run keep their file names.
use vstd::prelude::*;
use crate::ids::{convert_url_to_unique_filename, generate_uuid, is_uuid_text, sanitized};
use crate::text::{chars_of, push_str, str_eq, string_of};
use crate::xml::{
    attribute_index_from, attribute_of, describe_parse_error, describe_write_error, element_view,
    lemma_nodes_view, lemma_nodes_view_push, node_view, nodes_view, pairs_view, parse_document,
    parsed_document, render, rendered, ElementV, NodeV, XmlElement, XmlNode,
};

verus! {

/// The prefix that marks an outline as deduplicated.
pub open spec fn dd_prefix() -> Seq<char> {
    "DD_"@
}

/// An outline not deduplicated yet: it has no title, or one without the
/// prefix.
pub open spec fn is_new_feed(e: ElementV) -> bool {
    match attribute_of(e, "title"@) {
        Some(t) => !dd_prefix().is_prefix_of(t),
        None => true,
    }
}

/// `attrs` with the value of the attribute `key`, if there is one, replaced
/// by `value`.
pub open spec fn set_attribute(attrs: Seq<(Seq<char>, Seq<char>)>, key: Seq<char>, value: Seq<char>) -> Seq<(Seq<char>, Seq<char>)> {
    match attribute_index_from(attrs, key, 0) {
        Some(i) => attrs.update(i, (attrs[i].0, value)),
        None => attrs,
    }
}

/// `attrs` with the prefix put before the value of the attribute `key`.
pub open spec fn mark_attribute(attrs: Seq<(Seq<char>, Seq<char>)>, key: Seq<char>) -> Seq<(Seq<char>, Seq<char>)> {
    match attribute_index_from(attrs, key, 0) {
        Some(i) => attrs.update(i, (attrs[i].0, dd_prefix() + attrs[i].1)),
        None => attrs,
    }
}

/// The unique file name of the feed at `url`.
pub open spec fn feed_file(url: Seq<char>, uuid: Seq<char>) -> Seq<char> {
    uuid + sanitized(url) + ".rss"@
}

/// The attributes of a new outline once it is deduplicated: title and text
/// get the prefix, the feed URL points at the unique file under `prefix`.
pub open spec fn outline_attributes(e: ElementV, prefix: Seq<char>, uuid: Seq<char>) -> Seq<(Seq<char>, Seq<char>)> {
    if is_new_feed(e) {
        let marked = mark_attribute(mark_attribute(e.attributes, "title"@), "text"@);
        match attribute_of(e, "xmlUrl"@) {
            Some(u) => set_attribute(marked, "xmlUrl"@, prefix + feed_file(u, uuid)),
            None => marked,
        }
    } else {
        e.attributes
    }
}

/// `s` without the leading `p`, where it has it.
pub open spec fn strip_prefix(s: Seq<char>, p: Seq<char>) -> Seq<char> {
    if p.is_prefix_of(s) {
        s.subrange(p.len() as int, s.len() as int)
    } else {
        s
    }
}

/// The source URL that the last of the first `n` pairs `(file, url)` with
/// file name `file` gives.
pub open spec fn source_of(previous: Seq<(Seq<char>, Seq<char>)>, file: Seq<char>, n: int) -> Option<Seq<char>>
    decreases n,
{
    if n <= 0 || n > previous.len() {
        None
    } else if previous[n - 1].0 == file {
        Some(previous[n - 1].1)
    } else {
        source_of(previous, file, n - 1)
    }
}

/// The feed an outline contributes to the feed list, as `(source URL, file
/// name)`: for a new one, its URL and the new file; for one deduplicated
/// before, the source that the previous list has for its file.
pub open spec fn outline_feed(
    e: ElementV,
    prefix: Seq<char>,
    previous: Seq<(Seq<char>, Seq<char>)>,
    uuid: Seq<char>,
) -> Seq<(Seq<char>, Seq<char>)> {
    match attribute_of(e, "xmlUrl"@) {
        None => Seq::empty(),
        Some(u) => if is_new_feed(e) {
            seq![(u, feed_file(u, uuid))]
        } else {
            match source_of(previous, strip_prefix(u, prefix), previous.len() as int) {
                Some(src) => seq![(src, strip_prefix(u, prefix))],
                None => Seq::empty(),
            }
        },
    }
}

/// An outline that needs a fresh UUID.
pub open spec fn draws_uuid(e: ElementV) -> bool {
    e.name == "outline"@ && is_new_feed(e) && attribute_of(e, "xmlUrl"@) is Some
}

/// The UUID at position `k` of `uuids`, empty past the end.
pub open spec fn uuid_for(uuids: Seq<Seq<char>>, k: int) -> Seq<char> {
    if 0 <= k < uuids.len() {
        uuids[k]
    } else {
        Seq::empty()
    }
}

/// The outline tree rewritten in document order, taking fresh UUIDs from
/// `uuids` starting at `k`: the new tree, the feeds collected and the next
/// UUID position.
pub open spec fn modify_element(
    e: ElementV,
    prefix: Seq<char>,
    previous: Seq<(Seq<char>, Seq<char>)>,
    uuids: Seq<Seq<char>>,
    k: int,
) -> (ElementV, Seq<(Seq<char>, Seq<char>)>, int)
    decreases e,
{
    let outline = e.name == "outline"@;
    let uuid = uuid_for(uuids, k);
    let k1 = if draws_uuid(e) && 0 <= k < uuids.len() {
        k + 1
    } else {
        k
    };
    let attributes = if outline {
        outline_attributes(e, prefix, uuid)
    } else {
        e.attributes
    };
    let found = if outline {
        outline_feed(e, prefix, previous, uuid)
    } else {
        Seq::empty()
    };
    let (kids, more, k2) = modify_children(e.children, prefix, previous, uuids, k1);
    (
        ElementV {
            prefix: e.prefix,
            namespace: e.namespace,
            namespaces: e.namespaces,
            name: e.name,
            attributes,
            children: kids,
        },
        found + more,
        k2,
    )
}

/// The children `s` rewritten in order; see `modify_element`.
pub open spec fn modify_children(
    s: Seq<NodeV>,
    prefix: Seq<char>,
    previous: Seq<(Seq<char>, Seq<char>)>,
    uuids: Seq<Seq<char>>,
    k: int,
) -> (Seq<NodeV>, Seq<(Seq<char>, Seq<char>)>, int)
    decreases s,
{
    if s.len() == 0 {
        (Seq::empty(), Seq::empty(), k)
    } else {
        let rest = s.subrange(1, s.len() as int);
        match s[0] {
            NodeV::Element(c) => {
                let (c2, found, k1) = modify_element(c, prefix, previous, uuids, k);
                let (kids, more, k2) = modify_children(rest, prefix, previous, uuids, k1);
                (seq![NodeV::Element(c2)] + kids, found + more, k2)
            },
            _ => {
                let (kids, more, k2) = modify_children(rest, prefix, previous, uuids, k);
                (seq![s[0]] + kids, more, k2)
            },
        }
    }
}

/// The number of outlines in the tree that need a fresh UUID.
pub open spec fn draw_count(e: ElementV) -> int
    decreases e,
{
    (if draws_uuid(e) {
        1int
    } else {
        0int
    }) + draw_count_children(e.children)
}

pub open spec fn draw_count_children(s: Seq<NodeV>) -> int
    decreases s,
{
    if s.len() == 0 {
        0
    } else {
        (match s[0] {
            NodeV::Element(c) => draw_count(c),
            _ => 0,
        }) + draw_count_children(s.subrange(1, s.len() as int))
    }
}

pub open spec fn strings_view(v: Seq<String>) -> Seq<Seq<char>> {
    Seq::new(v.len(), |i: int| v[i]@)
}

/// The pairs `(file, url)` of a stored feed list of pairs `(url, file)`.
pub open spec fn swapped(v: Seq<(Seq<char>, Seq<char>)>) -> Seq<(Seq<char>, Seq<char>)> {
    Seq::new(v.len(), |i: int| (v[i].1, v[i].0))
}

fn attribute_index(attrs: &Vec<(String, String)>, key: &str) -> (r: Option<usize>)
    ensures
        r matches Some(i) ==> attribute_index_from(pairs_view(attrs@), key@, 0) == Some(i as int),
        r is None ==> attribute_index_from(pairs_view(attrs@), key@, 0) is None,
{
    let ghost a = pairs_view(attrs@);
    let mut i: usize = 0;
    while i < attrs.len()
        invariant
            i <= attrs@.len(),
            a == pairs_view(attrs@),
            attribute_index_from(a, key@, 0) == attribute_index_from(a, key@, i as int),
        decreases attrs@.len() - i,
    {
        if str_eq(attrs[i].0.as_str(), key) {
            return Some(i);
        }
        i = i + 1;
    }
    None
}

proof fn lemma_attribute_index(a: Seq<(Seq<char>, Seq<char>)>, key: Seq<char>, i: int)
    requires
        0 <= i,
    ensures
        attribute_index_from(a, key, i) matches Some(j) ==> i <= j < a.len(),
    decreases a.len() - i,
{
    if 0 <= i < a.len() && a[i].0 != key {
        lemma_attribute_index(a, key, i + 1);
    }
}

fn set_value(attrs: &mut Vec<(String, String)>, key: &str, value: String)
    ensures
        pairs_view(final(attrs)@) == set_attribute(pairs_view(old(attrs)@), key@, value@),
{
    match attribute_index(attrs, key) {
        None => {},
        Some(i) => {
            proof {
                lemma_attribute_index(pairs_view(attrs@), key@, 0);
            }
            let k = attrs[i].0.clone();
            attrs.set(i, (k, value));
            assert(pairs_view(attrs@) =~= set_attribute(pairs_view(old(attrs)@), key@, value@));
        },
    }
}

fn mark_value(attrs: &mut Vec<(String, String)>, key: &str)
    ensures
        pairs_view(final(attrs)@) == mark_attribute(pairs_view(old(attrs)@), key@),
{
    match attribute_index(attrs, key) {
        None => {},
        Some(i) => {
            proof {
                lemma_attribute_index(pairs_view(attrs@), key@, 0);
            }
            let k = attrs[i].0.clone();
            let mut v = "DD_".to_string();
            push_str(&mut v, attrs[i].1.as_str());
            attrs.set(i, (k, v));
            assert(pairs_view(attrs@) =~= mark_attribute(pairs_view(old(attrs)@), key@));
        },
    }
}

fn starts_with_str(s: &str, p: &str) -> (r: bool)
    ensures
        r == p@.is_prefix_of(s@),
{
    let sc = chars_of(s);
    let pc = chars_of(p);
    if pc.len() > sc.len() {
        return false;
    }
    let mut k: usize = 0;
    while k < pc.len()
        invariant
            pc@.len() <= sc@.len(),
            sc@ == s@,
            pc@ == p@,
            k <= pc@.len(),
            forall|j: int| 0 <= j < k ==> #[trigger] pc@[j] == sc@[j],
        decreases pc@.len() - k,
    {
        if pc[k] != sc[k] {
            return false;
        }
        k = k + 1;
    }
    assert(pc@ =~= sc@.subrange(0, pc@.len() as int));
    true
}

fn strip_prefix_exec(s: &str, p: &str) -> (r: String)
    ensures
        r@ == strip_prefix(s@, p@),
{
    if starts_with_str(s, p) {
        let sc = chars_of(s);
        let pc = chars_of(p);
        string_of(&sc, pc.len(), sc.len())
    } else {
        s.to_string()
    }
}

fn find_source(previous: &Vec<(String, String)>, file: &String) -> (r: Option<String>)
    ensures
        r matches Some(u) ==> source_of(pairs_view(previous@), file@, previous@.len() as int) == Some(u@),
        r is None ==> source_of(pairs_view(previous@), file@, previous@.len() as int) is None,
{
    let ghost pv = pairs_view(previous@);
    let mut n: usize = previous.len();
    while n > 0
        invariant
            n <= previous@.len(),
            pv == pairs_view(previous@),
            source_of(pv, file@, previous@.len() as int) == source_of(pv, file@, n as int),
        decreases n,
    {
        if previous[n - 1].0 == *file {
            return Some(previous[n - 1].1.clone());
        }
        n = n - 1;
    }
    None
}

fn is_new_feed_exec(e: &XmlElement) -> (r: bool)
    ensures
        r == is_new_feed(element_view(*e)),
{
    match e.get_attribute("title") {
        Some(t) => !starts_with_str(t.as_str(), "DD_"),
        None => true,
    }
}

/// One outline: its new attributes and the feed it contributes.
fn modify_outline(
    e: &XmlElement,
    prefix: &str,
    previous: &Vec<(String, String)>,
    uuid: &String,
) -> (r: (Vec<(String, String)>, Vec<(String, String)>))
    ensures
        pairs_view(r.0@) == outline_attributes(element_view(*e), prefix@, uuid@),
        pairs_view(r.1@) == outline_feed(element_view(*e), prefix@, pairs_view(previous@), uuid@),
{
    let ghost ev = element_view(*e);
    let mut attrs = crate::xml::copy_pairs(&e.attributes);
    let mut found: Vec<(String, String)> = Vec::new();
    let new_feed = is_new_feed_exec(e);
    if new_feed {
        mark_value(&mut attrs, "title");
        mark_value(&mut attrs, "text");
    }
    match e.get_attribute("xmlUrl") {
        None => {},
        Some(url) => {
            if new_feed {
                let file = convert_url_to_unique_filename(url.as_str(), uuid.as_str());
                let mut target = prefix.to_string();
                push_str(&mut target, file.as_str());
                proof {
                    assert(target@ =~= prefix@ + feed_file(url@, uuid@));
                }
                set_value(&mut attrs, "xmlUrl", target);
                found.push((url.clone(), file));
            } else {
                let file = strip_prefix_exec(url.as_str(), prefix);
                match find_source(previous, &file) {
                    Some(src) => {
                        found.push((src, file));
                    },
                    None => {},
                }
            }
        },
    }
    assert(pairs_view(found@) =~= outline_feed(ev, prefix@, pairs_view(previous@), uuid@));
    (attrs, found)
}

proof fn lemma_pairs_view_append(a: Seq<(String, String)>, b: Seq<(String, String)>)
    ensures
        pairs_view(a + b) == pairs_view(a) + pairs_view(b),
{
    assert(pairs_view(a + b) =~= pairs_view(a) + pairs_view(b));
}

/// Rewrites the outline tree below `e`; see `modify_element`.
fn modify_tree(
    e: &XmlElement,
    prefix: &str,
    previous: &Vec<(String, String)>,
    uuids: &Vec<String>,
    k: usize,
) -> (r: (XmlElement, Vec<(String, String)>, usize))
    requires
        k <= uuids@.len(),
    ensures
        r.2 <= uuids@.len(),
        (element_view(r.0), pairs_view(r.1@), r.2 as int) == modify_element(
            element_view(*e),
            prefix@,
            pairs_view(previous@),
            strings_view(uuids@),
            k as int,
        ),
    decreases e,
{
    let ghost us = strings_view(uuids@);
    let outline = str_eq(e.name.as_str(), "outline");
    let draws = outline && is_new_feed_exec(e) && e.get_attribute("xmlUrl").is_some();
    let uuid = if k < uuids.len() {
        uuids[k].clone()
    } else {
        String::new()
    };
    assert(uuid@ == uuid_for(us, k as int));
    let k1 = if draws && k < uuids.len() {
        k + 1
    } else {
        k
    };
    let (attributes, found) = if outline {
        modify_outline(e, prefix, previous, &uuid)
    } else {
        (crate::xml::copy_pairs(&e.attributes), Vec::new())
    };
    proof {
        if !outline {
            assert(pairs_view(found@) =~= Seq::<(Seq<char>, Seq<char>)>::empty());
        }
    }
    let (kids, more, k2) = modify_nodes(&e.children, prefix, previous, uuids, k1);
    let mut found = found;
    let mut more = more;
    let ghost f0 = found@;
    let ghost m0 = more@;
    found.append(&mut more);
    proof {
        lemma_pairs_view_append(f0, m0);
    }
    let namespaces = match &e.namespaces {
        Some(v) => Some(crate::xml::copy_pairs(v)),
        None => None,
    };
    let out = XmlElement {
        prefix: crate::xml::copy_string_opt(&e.prefix),
        namespace: crate::xml::copy_string_opt(&e.namespace),
        namespaces,
        name: e.name.clone(),
        attributes,
        children: kids,
    };
    (out, found, k2)
}

fn modify_nodes(
    children: &Vec<XmlNode>,
    prefix: &str,
    previous: &Vec<(String, String)>,
    uuids: &Vec<String>,
    k: usize,
) -> (r: (Vec<XmlNode>, Vec<(String, String)>, usize))
    requires
        k <= uuids@.len(),
    ensures
        r.2 <= uuids@.len(),
        (nodes_view(r.0@), pairs_view(r.1@), r.2 as int) == modify_children(
            nodes_view(children@),
            prefix@,
            pairs_view(previous@),
            strings_view(uuids@),
            k as int,
        ),
    decreases children,
{
    let ghost s = nodes_view(children@);
    let ghost pv = pairs_view(previous@);
    let ghost us = strings_view(uuids@);
    let ghost whole = modify_children(s, prefix@, pv, us, k as int);
    proof {
        lemma_nodes_view(children@);
        assert(s.subrange(0, s.len() as int) =~= s);
        assert(nodes_view(Seq::<XmlNode>::empty()) =~= Seq::<NodeV>::empty());
        assert(Seq::<NodeV>::empty() + whole.0 =~= whole.0);
        assert(Seq::<(Seq<char>, Seq<char>)>::empty() + whole.1 =~= whole.1);
        assert(pairs_view(Seq::<(String, String)>::empty()) =~= Seq::<(Seq<char>, Seq<char>)>::empty());
    }
    let mut out: Vec<XmlNode> = Vec::new();
    let mut found: Vec<(String, String)> = Vec::new();
    let mut cur = k;
    let mut i: usize = 0;
    while i < children.len()
        invariant
            i <= children@.len(),
            cur <= uuids@.len(),
            s == nodes_view(children@),
            s.len() == children@.len(),
            pv == pairs_view(previous@),
            us == strings_view(uuids@),
            forall|j: int| 0 <= j < children@.len() ==> #[trigger] s[j] == node_view(children@[j]),
            whole == modify_children(s, prefix@, pv, us, k as int),
            ({
                let tail = modify_children(s.subrange(i as int, s.len() as int), prefix@, pv, us, cur as int);
                whole == (nodes_view(out@) + tail.0, pairs_view(found@) + tail.1, tail.2)
            }),
        decreases children@.len() - i,
    {
        let ghost rest = s.subrange(i as int, s.len() as int);
        proof {
            assert(rest[0] == s[i as int]);
            assert(rest.subrange(1, rest.len() as int) =~= s.subrange(i + 1, s.len() as int));
        }
        let ghost after = modify_children(s.subrange(i + 1, s.len() as int), prefix@, pv, us, cur as int);
        match &children[i] {
            XmlNode::Element(c) => {
                proof {
                    vstd::std_specs::vec::axiom_vec_index_decreases(*children, i as int);
                }
                let (c2, f, k1) = modify_tree(c, prefix, previous, uuids, cur);
                let ghost tail2 = modify_children(s.subrange(i + 1, s.len() as int), prefix@, pv, us, k1 as int);
                let n = XmlNode::Element(c2);
                proof {
                    lemma_nodes_view_push(out@, n);
                    lemma_pairs_view_append(found@, f@);
                    assert(nodes_view(out@).push(node_view(n)) + tail2.0 =~= nodes_view(out@) + (seq![node_view(n)] + tail2.0));
                    assert(pairs_view(found@) + pairs_view(f@) + tail2.1 =~= pairs_view(found@) + (pairs_view(f@) + tail2.1));
                }
                out.push(n);
                let mut f = f;
                found.append(&mut f);
                cur = k1;
            },
            other => {
                let n = other.copy();
                proof {
                    lemma_nodes_view_push(out@, n);
                    assert(nodes_view(out@).push(node_view(n)) + after.0 =~= nodes_view(out@) + (seq![node_view(n)] + after.0));
                }
                out.push(n);
            },
        }
        i = i + 1;
    }
    proof {
        assert(s.subrange(s.len() as int, s.len() as int) =~= Seq::<NodeV>::empty());
        assert(nodes_view(out@) + Seq::<NodeV>::empty() =~= nodes_view(out@));
        assert(pairs_view(found@) + Seq::<(Seq<char>, Seq<char>)>::empty() =~= pairs_view(found@));
    }
    (out, found, cur)
}

/// The number of outlines below `e` that need a fresh UUID, up to the
/// largest `usize`.
fn count_draws(e: &XmlElement) -> (r: usize)
    ensures
        draw_count(element_view(*e)) <= usize::MAX ==> r == draw_count(element_view(*e)),
    decreases e,
{
    let here: usize = if str_eq(e.name.as_str(), "outline") && is_new_feed_exec(e) && e.get_attribute("xmlUrl").is_some() {
        1
    } else {
        0
    };
    let below = count_draws_nodes(&e.children);
    if below > usize::MAX - here {
        usize::MAX
    } else {
        here + below
    }
}

fn count_draws_nodes(children: &Vec<XmlNode>) -> (r: usize)
    ensures
        draw_count_children(nodes_view(children@)) <= usize::MAX ==> r == draw_count_children(nodes_view(children@)),
    decreases children,
{
    let ghost s = nodes_view(children@);
    proof {
        lemma_nodes_view(children@);
        lemma_draw_count_nonneg(s);
    }
    let mut total: usize = 0;
    let mut i: usize = children.len();
    while i > 0
        invariant
            i <= children@.len(),
            s == nodes_view(children@),
            s.len() == children@.len(),
            forall|j: int| 0 <= j < children@.len() ==> #[trigger] s[j] == node_view(children@[j]),
            draw_count_children(s.subrange(i as int, s.len() as int)) <= usize::MAX ==> total
                == draw_count_children(s.subrange(i as int, s.len() as int)),
            draw_count_children(s) <= usize::MAX ==> draw_count_children(s.subrange(i as int, s.len() as int)) <= usize::MAX,
        decreases i,
    {
        i = i - 1;
        let ghost t = s.subrange(i as int, s.len() as int);
        proof {
            assert(t[0] == s[i as int]);
            assert(t.subrange(1, t.len() as int) =~= s.subrange(i + 1, s.len() as int));
            lemma_draw_count_nonneg(s.subrange(i + 1, s.len() as int));
            lemma_draw_count_split(s, i as int);
        }
        let here: usize = match &children[i] {
            XmlNode::Element(c) => {
                proof {
                    vstd::std_specs::vec::axiom_vec_index_decreases(*children, i as int);
                    lemma_draw_count_elem_nonneg(element_view(*c));
                }
                count_draws(c)
            },
            _ => 0,
        };
        if total > usize::MAX - here {
            total = usize::MAX;
        } else {
            total = total + here;
        }
    }
    assert(s.subrange(0, s.len() as int) =~= s);
    total
}

proof fn lemma_draw_count_elem_nonneg(e: ElementV)
    ensures
        draw_count(e) >= 0,
    decreases e,
{
    lemma_draw_count_nonneg(e.children);
}

proof fn lemma_draw_count_nonneg(s: Seq<NodeV>)
    ensures
        draw_count_children(s) >= 0,
    decreases s,
{
    if s.len() > 0 {
        if let NodeV::Element(c) = s[0] {
            lemma_draw_count_elem_nonneg(c);
        }
        lemma_draw_count_nonneg(s.subrange(1, s.len() as int));
    }
}

/// The count over `s[i..]` is at most the count over `s`.
proof fn lemma_draw_count_split(s: Seq<NodeV>, i: int)
    requires
        0 <= i <= s.len(),
    ensures
        draw_count_children(s.subrange(i, s.len() as int)) <= draw_count_children(s),
    decreases i,
{
    if i > 0 {
        let t = s.subrange(1, s.len() as int);
        assert(t.subrange(i - 1, t.len() as int) =~= s.subrange(i, s.len() as int));
        lemma_draw_count_split(t, i - 1);
        if let NodeV::Element(c) = s[0] {
            lemma_draw_count_elem_nonneg(c);
        }
    } else {
        assert(s.subrange(0, s.len() as int) =~= s);
    }
}

/// Given at least as many UUIDs from `k` on as the tree has outlines that
/// need one, the rewrite takes exactly that many, so each such outline gets
/// one of them.
pub proof fn lemma_uuids_suffice(
    e: ElementV,
    prefix: Seq<char>,
    previous: Seq<(Seq<char>, Seq<char>)>,
    uuids: Seq<Seq<char>>,
    k: int,
)
    requires
        0 <= k,
        k + draw_count(e) <= uuids.len(),
    ensures
        modify_element(e, prefix, previous, uuids, k).2 == k + draw_count(e),
    decreases e,
{
    lemma_draw_count_nonneg(e.children);
    let k1 = if draws_uuid(e) && 0 <= k < uuids.len() {
        k + 1
    } else {
        k
    };
    lemma_uuids_suffice_children(e.children, prefix, previous, uuids, k1);
}

proof fn lemma_uuids_suffice_children(
    s: Seq<NodeV>,
    prefix: Seq<char>,
    previous: Seq<(Seq<char>, Seq<char>)>,
    uuids: Seq<Seq<char>>,
    k: int,
)
    requires
        0 <= k,
        k + draw_count_children(s) <= uuids.len(),
    ensures
        modify_children(s, prefix, previous, uuids, k).2 == k + draw_count_children(s),
    decreases s,
{
    if s.len() > 0 {
        let rest = s.subrange(1, s.len() as int);
        lemma_draw_count_nonneg(rest);
        match s[0] {
            NodeV::Element(c) => {
                lemma_draw_count_elem_nonneg(c);
                lemma_uuids_suffice(c, prefix, previous, uuids, k);
                let k1 = modify_element(c, prefix, previous, uuids, k).2;
                lemma_uuids_suffice_children(rest, prefix, previous, uuids, k1);
            },
            _ => {
                lemma_uuids_suffice_children(rest, prefix, previous, uuids, k);
            },
        }
    }
}

/// `n` fresh UUIDs.
fn draw_uuids(n: usize) -> (r: Vec<String>)
    ensures
        r@.len() == n,
        forall|i: int| 0 <= i < n ==> is_uuid_text(#[trigger] strings_view(r@)[i]),
{
    let mut r: Vec<String> = Vec::new();
    let mut i: usize = 0;
    while i < n
        invariant
            i <= n,
            r@.len() == i,
            forall|j: int| 0 <= j < i ==> is_uuid_text(#[trigger] r@[j]@),
        decreases n - i,
    {
        r.push(generate_uuid());
        i = i + 1;
    }
    r
}

/// The value of an OPML document in work.
pub struct OpmlV {
    pub root: ElementV,
    pub filename: Seq<char>,
    pub feeds: Seq<(Seq<char>, Seq<char>)>,
}

/// An OPML document, where it was read from, and the feeds collected from
/// it as pairs `(source URL, file name)`.
pub struct OpmlDom {
    opmlroot: XmlElement,
    filename: String,
    feeds: Vec<(String, String)>,
}

impl View for OpmlDom {
    type V = OpmlV;

    closed spec fn view(&self) -> OpmlV {
        OpmlV { root: element_view(self.opmlroot), filename: self.filename@, feeds: pairs_view(self.feeds@) }
    }
}

/// Every entry of `u` is a UUID.
pub open spec fn all_uuids(u: Seq<Seq<char>>) -> bool {
    forall|i: int| 0 <= i < u.len() ==> is_uuid_text(#[trigger] u[i])
}

impl OpmlDom {
    /// The document held in `text`, read from `filename`.
    pub fn new(filename: &str, text: &str) -> (r: Result<OpmlDom, String>)
        ensures
            r is Ok <==> parsed_document(text@) is Some,
            r matches Ok(d) ==> parsed_document(text@) == Some(d@.root) && d@.filename == filename@
                && d@.feeds.len() == 0,
    {
        match parse_document(text) {
            Ok(root) => {
                let d = OpmlDom { opmlroot: root, filename: filename.to_string(), feeds: Vec::new() };
                assert(d@.feeds =~= Seq::<(Seq<char>, Seq<char>)>::empty());
                Ok(d)
            },
            Err(e) => {
                let mut m = "XML parse error: ".to_string();
                push_str(&mut m, describe_parse_error(&e).as_str());
                Err(m)
            },
        }
    }

    pub fn filename(&self) -> (r: &String)
        ensures
            r@ == self@.filename,
    {
        &self.filename
    }

    /// The feeds collected so far, as pairs `(source URL, file name)`.
    pub fn feeds(&self) -> (r: &Vec<(String, String)>)
        ensures
            pairs_view(r@) == self@.feeds,
    {
        &self.feeds
    }

    /// Deduplicates the outlines: new ones get the prefix, a fresh unique
    /// file under `new_url_prefix` and a place in the feed list; ones
    /// deduplicated before keep their file and take their source from
    /// `previous_feeds`, pairs `(file name, source URL)` where the last pair
    /// for a file counts. Collects the feeds once: the list must be empty.
    pub fn modify(&mut self, new_url_prefix: &str, previous_feeds: &Vec<(String, String)>)
        requires
            old(self)@.feeds.len() == 0,
        ensures
            final(self)@.filename == old(self)@.filename,
            exists|u: Seq<Seq<char>>|
                all_uuids(u) && (draw_count(old(self)@.root) <= usize::MAX ==> u.len() == draw_count(
                    old(self)@.root,
                )) && ({
                    let (root, feeds, k) = #[trigger] modify_element(
                        old(self)@.root,
                        new_url_prefix@,
                        pairs_view(previous_feeds@),
                        u,
                        0,
                    );
                    final(self)@.root == root && final(self)@.feeds == feeds
                }),
    {
        let n = count_draws(&self.opmlroot);
        let uuids = draw_uuids(n);
        let (root, feeds, k) = modify_tree(&self.opmlroot, new_url_prefix, previous_feeds, &uuids, 0);
        self.opmlroot = root;
        self.feeds = feeds;
        assert(all_uuids(strings_view(uuids@)));
    }

    /// The document as text, indented by four spaces, empty elements written
    /// out in full.
    pub fn to_text(&self) -> (r: Result<String, String>)
        ensures
            r matches Ok(t) ==> rendered(self@.root, "    "@, "\n"@, false) == Some(t@),
            r is Err <==> rendered(self@.root, "    "@, "\n"@, false) is None,
    {
        match render(&self.opmlroot, "    ", "\n", false) {
            Ok(t) => Ok(t),
            Err(e) => {
                let mut m = "OPML file ".to_string();
                push_str(&mut m, self.filename.as_str());
                push_str(&mut m, " cannot be written: ");
                push_str(&mut m, describe_write_error(&e).as_str());
                Err(m)
            },
        }
    }
}

fn swap_pairs(v: &Vec<(String, String)>) -> (r: Vec<(String, String)>)
    ensures
        pairs_view(r@) == swapped(pairs_view(v@)),
{
    let mut r: Vec<(String, String)> = Vec::new();
    let mut i: usize = 0;
    while i < v.len()
        invariant
            i <= v@.len(),
            r@.len() == i,
            forall|j: int| 0 <= j < i ==> #[trigger] r@[j].0@ == v@[j].1@ && r@[j].1@ == v@[j].0@,
        decreases v@.len() - i,
    {
        r.push((v[i].1.clone(), v[i].0.clone()));
        i = i + 1;
    }
    assert(pairs_view(r@) =~= swapped(pairs_view(v@)));
    r
}

/// The new OPML text and the feed list, pairs `(source URL, file name)`, for
/// the OPML document `opml_text`, with file names under `urlprefix`; feeds
/// deduplicated before keep the files that `stored_feeds`, the list of the
/// last run, gave them.
pub fn check_and_init_feeds(opml_text: &str, urlprefix: &str, stored_feeds: &Vec<(String, String)>) -> (r: Result<(String, Vec<(String, String)>), String>)
    ensures
        parsed_document(opml_text@) is None ==> r is Err,
        parsed_document(opml_text@) matches Some(tree) ==> exists|u: Seq<Seq<char>>|
            all_uuids(u) && (draw_count(tree) <= usize::MAX ==> u.len() == draw_count(tree)) && ({
                let (root, feeds, k) = #[trigger] modify_element(
                    tree,
                    urlprefix@,
                    swapped(pairs_view(stored_feeds@)),
                    u,
                    0,
                );
                match rendered(root, "    "@, "\n"@, false) {
                    None => r is Err,
                    Some(text) => r matches Ok((t, f)) && t@ == text && pairs_view(f@) == feeds,
                }
            }),
{
    let previous = swap_pairs(stored_feeds);
    let mut dom = match OpmlDom::new("", opml_text) {
        Ok(d) => d,
        Err(m) => return Err(m),
    };
    dom.modify(urlprefix, &previous);
    let text = dom.to_text();
    match text {
        Ok(t) => Ok((t, crate::xml::copy_pairs(&dom.feeds))),
        Err(m) => Err(m),
    }
}

} // verus!
