//! The rewriting pass over one feed's document tree.
//!
//! Each `channel` element scopes the items below it by its link. Each element
//! first decides which of its children stay, all against the registry as it
//! stands at that moment: an item whose link is registered for another
//! channel goes, and so does an item older than the maximum age. The kept
//! children are then rewritten in document order: an item whose identity is
//! new is registered for the current channel and kept as it is; an item whose
//! identity the current channel already owns gets the registered content.
use vstd::prelude::*;
use crate::ids::{extract_unique_id_and_host_from_url_string, identity_of};
use crate::registry::{lemma_lookup_prefix, lemma_lookup_push, lookup, DedupRegistry, EntryV};
use crate::retention::{check_pub_date_not_older_than, fresh_enough};
use crate::text::str_eq;
use crate::xml::{
    attribute_of, child_named, copy_nodes, element_view, lemma_nodes_view, lemma_nodes_view_push,
    node_view, nodes_view, text_of, with_children, ElementV, NodeV, XmlElement, XmlNode,
};

verus! {

pub open spec fn text_or_empty(t: Option<Seq<char>>) -> Seq<char> {
    match t {
        Some(s) => s,
        None => Seq::empty(),
    }
}

/// The link of an element: the text of its first `link` child, empty where
/// that child has no text; `None` where it has no `link` child.
pub open spec fn item_link(e: ElementV) -> Option<Seq<char>> {
    match child_named(e, "link"@) {
        Some(l) => Some(text_or_empty(text_of(l))),
        None => None,
    }
}

/// The registry key of a link: its identity, or the empty pair where the link
/// is no URL.
pub open spec fn key_of_link(link: Seq<char>) -> (Seq<char>, Seq<char>) {
    match identity_of(link) {
        Some(k) => k,
        None => (Seq::empty(), Seq::empty()),
    }
}

/// An item that takes part in deduplication: an `item` element with a link.
pub open spec fn is_linked_item(e: ElementV) -> bool {
    e.name == "item"@ && item_link(e) is Some
}

/// Whether an item is young enough to stay; one without a `pubDate` child is.
pub open spec fn item_fresh(e: ElementV, max_age: u64, now: i64) -> bool {
    match child_named(e, "pubDate"@) {
        Some(d) => fresh_enough(text_or_empty(text_of(d)), max_age, now),
        None => true,
    }
}

/// Whether a child stays in its parent, decided against the registry `reg`
/// within the channel `channel`.
pub open spec fn survives(n: NodeV, reg: Seq<EntryV>, channel: Seq<char>, max_age: u64, now: i64) -> bool {
    match n {
        NodeV::Element(e) => !is_linked_item(e) || (item_fresh(e, max_age, now) && match lookup(
            reg,
            key_of_link(item_link(e)->0),
        ) {
            Some(entry) => entry.channel == channel,
            None => true,
        }),
        _ => true,
    }
}

/// The decisions for each of `s`.
pub open spec fn keep_flags(s: Seq<NodeV>, reg: Seq<EntryV>, channel: Seq<char>, max_age: u64, now: i64) -> Seq<bool> {
    Seq::new(s.len(), |j: int| survives(s[j], reg, channel, max_age, now))
}

/// The identity of a channel element: the text of its first `link` child, or
/// failing that the `href` attribute of that child.
pub open spec fn channel_link(e: ElementV) -> Option<Seq<char>> {
    match child_named(e, "link"@) {
        Some(l) => match text_of(l) {
            Some(t) => Some(t),
            None => attribute_of(l, "href"@),
        },
        None => None,
    }
}

/// The channel that the children of `e` belong to; `None` where `e` is a
/// channel without a link.
pub open spec fn scope_of(e: ElementV, channel: Seq<char>) -> Option<Seq<char>> {
    if e.name == "channel"@ {
        channel_link(e)
    } else {
        Some(channel)
    }
}

/// The entry that an item registers.
pub open spec fn new_entry(e: ElementV, channel: Seq<char>, now: i64) -> EntryV {
    EntryV {
        key: key_of_link(item_link(e)->0),
        channel,
        payload: e.children,
        inserted_at: now as int,
    }
}

/// The registered content of an item whose identity `channel` owns.
pub open spec fn owned_payload(e: ElementV, reg: Seq<EntryV>, channel: Seq<char>) -> Option<Seq<NodeV>> {
    if is_linked_item(e) {
        match lookup(reg, key_of_link(item_link(e)->0)) {
            Some(entry) => if entry.channel == channel {
                Some(entry.payload)
            } else {
                None
            },
            None => None,
        }
    } else {
        None
    }
}

/// The rewritten element and registry; `None` where some channel in the
/// subtree has no link.
pub open spec fn rewrite_element(e: ElementV, reg: Seq<EntryV>, channel: Seq<char>, max_age: u64, now: i64) -> Option<(ElementV, Seq<EntryV>)>
    decreases e,
{
    match scope_of(e, channel) {
        None => None,
        Some(ch) => {
            let reg1 = if is_linked_item(e) && lookup(reg, key_of_link(item_link(e)->0)) is None {
                reg.push(new_entry(e, ch, now))
            } else {
                reg
            };
            if let Some(payload) = owned_payload(e, reg, ch) {
                Some((with_children(e, payload), reg))
            } else {
                match rewrite_children(e.children, keep_flags(e.children, reg1, ch, max_age, now), reg1, ch, max_age, now) {
                    None => None,
                    Some((kids, reg2)) => Some((with_children(e, kids), reg2)),
                }
            }
        },
    }
}

/// The rewritten sequence of the children `s` that `keep` keeps, in order,
/// and the registry after them.
pub open spec fn rewrite_children(
    s: Seq<NodeV>,
    keep: Seq<bool>,
    reg: Seq<EntryV>,
    channel: Seq<char>,
    max_age: u64,
    now: i64,
) -> Option<(Seq<NodeV>, Seq<EntryV>)>
    decreases s,
{
    if s.len() == 0 {
        Some((Seq::empty(), reg))
    } else {
        let rest = s.subrange(1, s.len() as int);
        let keep_rest = keep.subrange(1, keep.len() as int);
        if !keep[0] {
            rewrite_children(rest, keep_rest, reg, channel, max_age, now)
        } else {
            match s[0] {
                NodeV::Element(c) => match rewrite_element(c, reg, channel, max_age, now) {
                    None => None,
                    Some((c2, reg2)) => prepend(
                        NodeV::Element(c2),
                        rewrite_children(rest, keep_rest, reg2, channel, max_age, now),
                    ),
                },
                _ => prepend(s[0], rewrite_children(rest, keep_rest, reg, channel, max_age, now)),
            }
        }
    }
}

pub open spec fn prepend(n: NodeV, r: Option<(Seq<NodeV>, Seq<EntryV>)>) -> Option<(Seq<NodeV>, Seq<EntryV>)> {
    match r {
        Some((s, reg)) => Some((seq![n] + s, reg)),
        None => None,
    }
}

pub open spec fn prefix_with(out: Seq<NodeV>, r: Option<(Seq<NodeV>, Seq<EntryV>)>) -> Option<(Seq<NodeV>, Seq<EntryV>)> {
    match r {
        Some((s, reg)) => Some((out + s, reg)),
        None => None,
    }
}

proof fn lemma_prefix_with_step(out: Seq<NodeV>, n: NodeV, r: Option<(Seq<NodeV>, Seq<EntryV>)>)
    ensures
        prefix_with(out, prepend(n, r)) == prefix_with(out.push(n), r),
{
    if let Some((s, reg)) = r {
        assert(out + (seq![n] + s) =~= out.push(n) + s);
    }
}

proof fn lemma_prefix_trans(a: Seq<EntryV>, b: Seq<EntryV>, c: Seq<EntryV>)
    requires
        a.is_prefix_of(b),
        b.is_prefix_of(c),
    ensures
        a.is_prefix_of(c),
{
    assert forall|i: int| 0 <= i < a.len() implies a[i] == c[i] by {
        assert(a[i] == b[i]);
    }
}

proof fn lemma_item_is_no_channel(e: ElementV)
    requires
        e.name == "item"@,
    ensures
        e.name != "channel"@,
{
    reveal_strlit("item");
    reveal_strlit("channel");
    assert("item"@.len() == 4);
    assert("channel"@.len() == 7);
}

proof fn lemma_prefix_push(a: Seq<EntryV>, e: EntryV)
    ensures
        a.is_prefix_of(a.push(e)),
{
    assert forall|i: int| 0 <= i < a.len() implies a[i] == a.push(e)[i] by {}
}

/// A pass over an element only appends to the registry.
pub proof fn lemma_rewrite_grows(e: ElementV, reg: Seq<EntryV>, channel: Seq<char>, max_age: u64, now: i64)
    ensures
        rewrite_element(e, reg, channel, max_age, now) matches Some((out, g)) ==> reg.is_prefix_of(g),
    decreases e,
{
    if let Some(ch) = scope_of(e, channel) {
        let reg1 = if is_linked_item(e) && lookup(reg, key_of_link(item_link(e)->0)) is None {
            reg.push(new_entry(e, ch, now))
        } else {
            reg
        };
        lemma_prefix_push(reg, new_entry(e, ch, now));
        if owned_payload(e, reg, ch) is None {
            let keep = keep_flags(e.children, reg1, ch, max_age, now);
            lemma_children_grow(e.children, keep, reg1, ch, max_age, now);
            if let Some((kids, g)) = rewrite_children(e.children, keep, reg1, ch, max_age, now) {
                lemma_prefix_trans(reg, reg1, g);
            }
        }
    }
}

/// A pass over a sequence of children only appends to the registry.
pub proof fn lemma_children_grow(
    s: Seq<NodeV>,
    keep: Seq<bool>,
    reg: Seq<EntryV>,
    channel: Seq<char>,
    max_age: u64,
    now: i64,
)
    ensures
        rewrite_children(s, keep, reg, channel, max_age, now) matches Some((out, g)) ==> reg.is_prefix_of(g),
    decreases s,
{
    if s.len() > 0 {
        let rest = s.subrange(1, s.len() as int);
        let keep_rest = keep.subrange(1, keep.len() as int);
        if !keep[0] {
            lemma_children_grow(rest, keep_rest, reg, channel, max_age, now);
        } else {
            match s[0] {
                NodeV::Element(c) => {
                    lemma_rewrite_grows(c, reg, channel, max_age, now);
                    if let Some((c2, reg2)) = rewrite_element(c, reg, channel, max_age, now) {
                        lemma_children_grow(rest, keep_rest, reg2, channel, max_age, now);
                        if let Some((o, g)) = rewrite_children(rest, keep_rest, reg2, channel, max_age, now) {
                            lemma_prefix_trans(reg, reg2, g);
                        }
                    }
                },
                _ => {
                    lemma_children_grow(rest, keep_rest, reg, channel, max_age, now);
                },
            }
        }
    } else {
        assert(reg.is_prefix_of(reg));
    }
}

/// First writer wins: an identity registered before a pass is registered,
/// after the pass, to the same channel with the same content.
pub proof fn lemma_first_writer_wins(
    e: ElementV,
    reg: Seq<EntryV>,
    channel: Seq<char>,
    max_age: u64,
    now: i64,
    key: (Seq<char>, Seq<char>),
)
    requires
        rewrite_element(e, reg, channel, max_age, now) is Some,
        lookup(reg, key) is Some,
    ensures
        lookup((rewrite_element(e, reg, channel, max_age, now)->0).1, key) == lookup(reg, key),
{
    lemma_rewrite_grows(e, reg, channel, max_age, now);
    lemma_lookup_prefix(reg, (rewrite_element(e, reg, channel, max_age, now)->0).1, key);
}

/// An item whose identity another channel owns is dropped from its parent.
pub proof fn lemma_other_channel_drops(item: ElementV, reg: Seq<EntryV>, channel: Seq<char>, max_age: u64, now: i64)
    requires
        is_linked_item(item),
        lookup(reg, key_of_link(item_link(item)->0)) matches Some(entry) && entry.channel != channel,
    ensures
        !survives(NodeV::Element(item), reg, channel, max_age, now),
{
}

/// An item whose identity its own channel already owns stays, as long as it
/// is fresh, and takes the registered content; the registry does not change.
pub proof fn lemma_owner_gets_canonical(item: ElementV, reg: Seq<EntryV>, channel: Seq<char>, max_age: u64, now: i64)
    requires
        is_linked_item(item),
        lookup(reg, key_of_link(item_link(item)->0)) matches Some(entry) && entry.channel == channel,
    ensures
        survives(NodeV::Element(item), reg, channel, max_age, now) == item_fresh(item, max_age, now),
        rewrite_element(item, reg, channel, max_age, now) == Some(
            (with_children(item, (lookup(reg, key_of_link(item_link(item)->0))->0).payload), reg),
        ),
{
    lemma_item_is_no_channel(item);
}

/// An item with a new identity registers it for the current channel, with
/// its content as it came.
pub proof fn lemma_new_item_registers(item: ElementV, reg: Seq<EntryV>, channel: Seq<char>, max_age: u64, now: i64)
    requires
        is_linked_item(item),
        lookup(reg, key_of_link(item_link(item)->0)) is None,
        rewrite_element(item, reg, channel, max_age, now) is Some,
    ensures
        survives(NodeV::Element(item), reg, channel, max_age, now) == item_fresh(item, max_age, now),
        lookup((rewrite_element(item, reg, channel, max_age, now)->0).1, key_of_link(item_link(item)->0))
            == Some(new_entry(item, channel, now)),
{
    lemma_item_is_no_channel(item);
    let e = new_entry(item, channel, now);
    let reg1 = reg.push(e);
    lemma_lookup_push(reg, e);
    let keep = keep_flags(item.children, reg1, channel, max_age, now);
    lemma_children_grow(item.children, keep, reg1, channel, max_age, now);
    lemma_lookup_prefix(reg1, (rewrite_element(item, reg, channel, max_age, now)->0).1, e.key);
}

/// An item older than the maximum age is dropped from its parent, whatever
/// the registry holds, and so never reaches it.
pub proof fn lemma_expired_item_dropped(item: ElementV, reg: Seq<EntryV>, channel: Seq<char>, max_age: u64, now: i64)
    requires
        is_linked_item(item),
        !item_fresh(item, max_age, now),
    ensures
        !survives(NodeV::Element(item), reg, channel, max_age, now),
{
}

/// The registry key of an element's link, `None` where it has no `link`
/// child.
fn item_key(e: &XmlElement) -> (r: Option<(String, String)>)
    ensures
        r is None <==> item_link(element_view(*e)) is None,
        r matches Some((id, host)) ==> (id@, host@) == key_of_link(item_link(element_view(*e))->0),
{
    match e.get_child("link") {
        None => None,
        Some(l) => {
            let text = match l.get_text() {
                Some(t) => t,
                None => String::new(),
            };
            match extract_unique_id_and_host_from_url_string(text.as_str()) {
                Some((id, host)) => Some((id, host)),
                None => Some((String::new(), String::new())),
            }
        },
    }
}

fn item_is_fresh(e: &XmlElement, max_age: u64, now: i64) -> (r: bool)
    ensures
        r == item_fresh(element_view(*e), max_age, now),
{
    match e.get_child("pubDate") {
        None => true,
        Some(d) => {
            let text = match d.get_text() {
                Some(t) => t,
                None => String::new(),
            };
            check_pub_date_not_older_than(text.as_str(), max_age, now)
        },
    }
}

fn node_survives(n: &XmlNode, reg: &DedupRegistry, channel: &String, max_age: u64, now: i64) -> (r: bool)
    ensures
        r == survives(node_view(*n), reg@, channel@, max_age, now),
{
    match n {
        XmlNode::Element(e) => {
            if !str_eq(e.name.as_str(), "item") {
                return true;
            }
            match item_key(e) {
                None => true,
                Some((id, host)) => {
                    if !item_is_fresh(e, max_age, now) {
                        return false;
                    }
                    match reg.lookup(&id, &host) {
                        Some(entry) => entry.channel == *channel,
                        None => true,
                    }
                },
            }
        },
        _ => true,
    }
}

fn survivors(children: &Vec<XmlNode>, reg: &DedupRegistry, channel: &String, max_age: u64, now: i64) -> (r: Vec<bool>)
    ensures
        r@ == keep_flags(nodes_view(children@), reg@, channel@, max_age, now),
        r@.len() == children@.len(),
{
    let ghost kids = nodes_view(children@);
    proof {
        lemma_nodes_view(children@);
    }
    let mut r: Vec<bool> = Vec::new();
    let mut i: usize = 0;
    while i < children.len()
        invariant
            i <= children@.len(),
            kids == nodes_view(children@),
            kids.len() == children@.len(),
            forall|j: int| 0 <= j < children@.len() ==> #[trigger] kids[j] == node_view(children@[j]),
            r@.len() == i,
            forall|j: int| 0 <= j < i ==> #[trigger] r@[j] == survives(kids[j], reg@, channel@, max_age, now),
        decreases children@.len() - i,
    {
        let keep = node_survives(&children[i], reg, channel, max_age, now);
        r.push(keep);
        i = i + 1;
    }
    assert(r@ =~= keep_flags(kids, reg@, channel@, max_age, now));
    r
}

fn channel_link_of(e: &XmlElement) -> (r: Option<String>)
    ensures
        r matches Some(l) ==> channel_link(element_view(*e)) == Some(l@),
        r is None ==> channel_link(element_view(*e)) is None,
{
    match e.get_child("link") {
        None => None,
        Some(l) => match l.get_text() {
            Some(t) => Some(t),
            None => match l.get_attribute("href") {
                Some(h) => Some(h.clone()),
                None => None,
            },
        },
    }
}

/// Rewrites `e` within the channel `channel`; see the module documentation.
/// The registry only ever grows.
pub fn rewrite(e: &XmlElement, reg: &mut DedupRegistry, channel: &String, max_age: u64, now: i64) -> (r: Result<XmlElement, ()>)
    requires
        old(reg).wf(),
    ensures
        final(reg).wf(),
        old(reg)@.is_prefix_of(final(reg)@),
        match rewrite_element(element_view(*e), old(reg)@, channel@, max_age, now) {
            None => r is Err,
            Some((v, g)) => r matches Ok(x) && element_view(x) == v && final(reg)@ == g,
        },
    decreases e,
{
    let ch = if str_eq(e.name.as_str(), "channel") {
        match channel_link_of(e) {
            None => return Err(()),
            Some(l) => l,
        }
    } else {
        channel.clone()
    };
    if str_eq(e.name.as_str(), "item") {
        match item_key(e) {
            None => {},
            Some((id, host)) => {
                let owned_here: Option<Vec<XmlNode>> = match reg.lookup(&id, &host) {
                    Some(entry) => {
                        if entry.channel == ch {
                            Some(copy_nodes(&entry.payload))
                        } else {
                            None
                        }
                    },
                    None => {
                        None
                    },
                };
                match owned_here {
                    Some(payload) => {
                        return Ok(e.with_children(payload));
                    },
                    None => {},
                }
                let payload = copy_nodes(&e.children);
                reg.register_if_absent(id, host, ch.clone(), payload, now);
            },
        }
    }
    let keep = survivors(&e.children, reg, &ch, max_age, now);
    let kids = rewrite_nodes(&e.children, &keep, reg, &ch, max_age, now);
    match kids {
        Err(()) => Err(()),
        Ok(kids) => Ok(e.with_children(kids)),
    }
}

fn rewrite_nodes(
    children: &Vec<XmlNode>,
    keep: &Vec<bool>,
    reg: &mut DedupRegistry,
    channel: &String,
    max_age: u64,
    now: i64,
) -> (r: Result<Vec<XmlNode>, ()>)
    requires
        keep@.len() == children@.len(),
        old(reg).wf(),
    ensures
        final(reg).wf(),
        old(reg)@.is_prefix_of(final(reg)@),
        match rewrite_children(nodes_view(children@), keep@, old(reg)@, channel@, max_age, now) {
            None => r is Err,
            Some((v, g)) => r matches Ok(x) && nodes_view(x@) == v && final(reg)@ == g,
        },
    decreases children,
{
    let ghost s = nodes_view(children@);
    let ghost whole = rewrite_children(s, keep@, reg@, channel@, max_age, now);
    let ghost start = reg@;
    proof {
        lemma_nodes_view(children@);
        assert(s.subrange(0, s.len() as int) =~= s);
        assert(keep@.subrange(0, keep@.len() as int) =~= keep@);
        assert(nodes_view(Seq::<XmlNode>::empty()) =~= Seq::<NodeV>::empty());
        assert(prefix_with(Seq::empty(), whole) == whole) by {
            if let Some((o, g)) = whole {
                assert(Seq::<NodeV>::empty() + o =~= o);
            }
        }
    }
    let mut out: Vec<XmlNode> = Vec::new();
    let mut k: usize = 0;
    while k < children.len()
        invariant
            k <= children@.len(),
            keep@.len() == children@.len(),
            s == nodes_view(children@),
            s.len() == children@.len(),
            forall|j: int| 0 <= j < children@.len() ==> #[trigger] s[j] == node_view(children@[j]),
            start == old(reg)@,
            reg.wf(),
            start.is_prefix_of(reg@),
            whole == rewrite_children(s, keep@, start, channel@, max_age, now),
            whole == prefix_with(
                nodes_view(out@),
                rewrite_children(
                    s.subrange(k as int, s.len() as int),
                    keep@.subrange(k as int, keep@.len() as int),
                    reg@,
                    channel@,
                    max_age,
                    now,
                ),
            ),
        decreases children@.len() - k,
    {
        let ghost rest = s.subrange(k as int, s.len() as int);
        let ghost keep_rest = keep@.subrange(k as int, keep@.len() as int);
        proof {
            assert(rest[0] == s[k as int]);
            assert(keep_rest[0] == keep@[k as int]);
            assert(rest.subrange(1, rest.len() as int) =~= s.subrange(k + 1, s.len() as int));
            assert(keep_rest.subrange(1, keep_rest.len() as int) =~= keep@.subrange(k + 1, keep@.len() as int));
        }
        if keep[k] {
            match &children[k] {
                XmlNode::Element(c) => {
                    proof {
                        vstd::std_specs::vec::axiom_vec_index_decreases(*children, k as int);
                    }
                    let ghost before = reg@;
                    assert(rest[0] == NodeV::Element(element_view(*c)));
                    let c2 = rewrite(c, reg, channel, max_age, now);
                    proof {
                        lemma_prefix_trans(start, before, reg@);
                    }
                    match c2 {
                        Err(()) => {
                            return Err(());
                        },
                        Ok(c2) => {
                            let n = XmlNode::Element(c2);
                            proof {
                                lemma_nodes_view_push(out@, n);
                                lemma_prefix_with_step(
                                    nodes_view(out@),
                                    node_view(n),
                                    rewrite_children(
                                        s.subrange(k + 1, s.len() as int),
                                        keep@.subrange(k + 1, keep@.len() as int),
                                        reg@,
                                        channel@,
                                        max_age,
                                        now,
                                    ),
                                );
                            }
                            out.push(n);
                        },
                    }
                },
                other => {
                    let n = other.copy();
                    proof {
                        lemma_nodes_view_push(out@, n);
                        lemma_prefix_with_step(
                            nodes_view(out@),
                            node_view(n),
                            rewrite_children(
                                s.subrange(k + 1, s.len() as int),
                                keep@.subrange(k + 1, keep@.len() as int),
                                reg@,
                                channel@,
                                max_age,
                                now,
                            ),
                        );
                    }
                    out.push(n);
                },
            }
        }
        k = k + 1;
    }
    proof {
        assert(s.subrange(s.len() as int, s.len() as int) =~= Seq::<NodeV>::empty());
        assert(nodes_view(out@) + Seq::<NodeV>::empty() =~= nodes_view(out@));
    }
    Ok(out)
}

} // verus!
