//! Document merger.
//!
//! For each discovered file whose text parses, the merger builds one new
//! element of the configured tag kind: the source root's `viewBox` attribute
//! is carried over for the symbol kind, the source root's children are
//! copied in order with comment nodes and the listed element names dropped
//! and the listed attribute names removed from the surviving direct child
//! elements, and the joined path segments become the `id` attribute.  The
//! new elements are appended, in discovery order, to one output `svg`
//! element carrying the two fixed namespace declarations.
//!
//! Parsing itself is the job of the `xmltree` crate and stands behind
//! trusted wrappers; everything after the parse is verified against the
//! parsed tree, whatever it holds.

use crate::ident::join_segments;
use crate::ident::spec_join;
use crate::walker::SVGFile;
use crate::xml::contains_name;
use crate::xml::lookup_attribute;
use crate::xml::lookup_key;
use crate::xml::name_list_contains;
use crate::xml::pair_views;
use crate::xml::remove_keys;
use crate::xml::remove_listed_attributes;
use crate::xml::seq_views;
use crate::xml::XmlElement;
use crate::xml::XmlNode;
use vstd::prelude::*;

verus! {

/// The two kinds of element a source file can become.
pub enum SVGTag {
    G,
    Symbol,
}

/// What the merger is configured with: the tag kind, the identifier
/// separator, and the attribute and element names to remove.
pub struct MergeOptions {
    pub tag: SVGTag,
    pub separator: String,
    pub removed_attributes: Vec<String>,
    pub removed_elements: Vec<String>,
}

/// One discovered file together with its text, where reading it succeeded.
pub struct SourceContent {
    pub file: SVGFile,
    pub text: Option<String>,
}

/// One discovered file together with its parsed document, where reading and
/// parsing succeeded.
pub struct MergeItem {
    pub file: SVGFile,
    pub doc: Option<XmlElement>,
}

/// The tag name of each kind.
pub open spec fn tag_name(tag: SVGTag) -> Seq<char> {
    match tag {
        SVGTag::G => "g"@,
        SVGTag::Symbol => "symbol"@,
    }
}

/// The name of the carried-over size attribute.
pub open spec fn viewbox_name() -> Seq<char> {
    "viewBox"@
}

/// The name of the generated identifier attribute.
pub open spec fn id_name() -> Seq<char> {
    "id"@
}

/// The namespace declarations of the output document: the default SVG
/// namespace and the prefixed cross-reference namespace.
pub open spec fn output_namespaces() -> Seq<(Seq<char>, Seq<char>)> {
    seq![(""@, "http://www.w3.org/2000/svg"@), ("xlink"@, "http://www.w3.org/1999/xlink"@)]
}

/// Whether a child node survives filtering: comments are dropped, elements
/// with a listed name are dropped, everything else survives.
pub open spec fn node_survives(n: XmlNode, removed_elements: Seq<Seq<char>>) -> bool {
    match n {
        XmlNode::Comment(_) => false,
        XmlNode::Element(e) => !contains_name(removed_elements, e.name@),
        _ => true,
    }
}

/// How a surviving node is carried over: an element keeps everything but the
/// attributes whose names are listed — its descendants included — and every
/// other node is carried over unchanged.
pub open spec fn node_kept(orig: XmlNode, new: XmlNode, removed_attributes: Seq<Seq<char>>) -> bool {
    match orig {
        XmlNode::Element(e) => match new {
            XmlNode::Element(f) => f.name == e.name && f.prefix == e.prefix && f.namespace
                == e.namespace && f.namespaces == e.namespaces && f.children == e.children
                && pair_views(f.attributes@) == remove_keys(
                pair_views(e.attributes@),
                removed_attributes,
            ),
            _ => false,
        },
        _ => new == orig,
    }
}

/// The positions, in order, of the children that survive filtering.
pub open spec fn surviving_indices(cs: Seq<XmlNode>, removed_elements: Seq<Seq<char>>) -> Seq<int>
    decreases cs.len(),
{
    if cs.len() == 0 {
        Seq::empty()
    } else {
        let rest = surviving_indices(cs.drop_last(), removed_elements);
        if node_survives(cs.last(), removed_elements) {
            rest.push(cs.len() - 1)
        } else {
            rest
        }
    }
}

/// The attribute pairs of a transformed element: the source root's
/// `viewBox`, where the symbol kind is asked for and the source has one,
/// then the generated identifier.
pub open spec fn transformed_attrs(
    doc_attrs: Seq<(Seq<char>, Seq<char>)>,
    tag: SVGTag,
    id: Seq<char>,
) -> Seq<(Seq<char>, Seq<char>)> {
    let carried = match lookup_key(doc_attrs, viewbox_name()) {
        Some(v) => if tag is Symbol {
            seq![(viewbox_name(), v)]
        } else {
            Seq::empty()
        },
        None => Seq::empty(),
    };
    carried.push((id_name(), id))
}

/// What [`transform_document`] returns for a source document, its path
/// segments and the configuration.
pub open spec fn is_transformed(
    doc: XmlElement,
    segments: Seq<String>,
    opts: MergeOptions,
    out: XmlElement,
) -> bool {
    &&& out.name@ == tag_name(opts.tag)
    &&& out.prefix is None
    &&& out.namespace is None
    &&& out.namespaces@.len() == 0
    &&& pair_views(out.attributes@) == transformed_attrs(
        pair_views(doc.attributes@),
        opts.tag,
        spec_join(seq_views(segments), opts.separator@),
    )
    &&& out.children@.len() == surviving_indices(
        doc.children@,
        seq_views(opts.removed_elements@),
    ).len()
    &&& forall|k: int|
        0 <= k < out.children@.len() ==> node_kept(
            doc.children@[surviving_indices(doc.children@, seq_views(opts.removed_elements@))[k]],
            out.children@[k],
            seq_views(opts.removed_attributes@),
        )
}

/// Builds the sub-element for one source document: the configured tag, the
/// carried-over `viewBox` for the symbol kind, the filtered children in
/// their original order, and the joined segments as the `id` attribute.
pub fn transform_document(doc: XmlElement, segments: &Vec<String>, opts: &MergeOptions) -> (r:
    XmlElement)
    ensures
        is_transformed(doc, segments@, *opts, r),
{
    let ghost re: Seq<Seq<char>> = seq_views(opts.removed_elements@);
    let ghost ra: Seq<Seq<char>> = seq_views(opts.removed_attributes@);
    let mut out_attrs: Vec<(String, String)> = Vec::new();
    let symbol = match opts.tag {
        SVGTag::Symbol => true,
        SVGTag::G => false,
    };
    if symbol {
        let vb_key: String = "viewBox".to_owned();
        match lookup_attribute(&doc.attributes, &vb_key) {
            Some(v) => {
                let ghost before = out_attrs@;
                out_attrs.push(("viewBox".to_owned(), v.clone()));
                proof {
                    assert(pair_views(out_attrs@) =~= pair_views(before).push(
                        (viewbox_name(), v@),
                    ));
                }
            },
            None => {},
        }
    }
    let id_value = join_segments(segments, opts.separator.as_str());
    let ghost id_view: Seq<char> = id_value@;
    let ghost before_id = out_attrs@;
    out_attrs.push(("id".to_owned(), id_value));
    proof {
        assert(pair_views(out_attrs@) =~= pair_views(before_id).push((id_name(), id_view)));
        assert(pair_views(out_attrs@) =~= transformed_attrs(
            pair_views(doc.attributes@),
            opts.tag,
            id_view,
        ));
    }
    let mut out_children: Vec<XmlNode> = Vec::new();
    let mut rest: Vec<XmlNode> = doc.children;
    let ghost orig: Seq<XmlNode> = rest@;
    let total: usize = rest.len();
    let mut i: usize = 0;
    proof {
        assert(orig.len() == total);
        assert(rest@ =~= orig.skip(0));
        assert(surviving_indices(orig.take(0), re) =~= Seq::<int>::empty());
    }
    while rest.len() > 0
        invariant
            re == seq_views(opts.removed_elements@),
            ra == seq_views(opts.removed_attributes@),
            0 <= i,
            orig.len() <= usize::MAX,
            i + rest@.len() == orig.len(),
            rest@ == orig.skip(i as int),
            out_children@.len() == surviving_indices(orig.take(i as int), re).len(),
            forall|k: int|
                0 <= k < out_children@.len() ==> node_kept(
                    orig[surviving_indices(orig.take(i as int), re)[k]],
                    out_children@[k],
                    ra,
                ),
        decreases rest@.len(),
    {
        let ghost prev_idx = surviving_indices(orig.take(i as int), re);
        proof {
            assert(orig.take(i + 1).drop_last() =~= orig.take(i as int));
            assert(orig.take(i + 1).last() == orig[i as int]);
            assert(rest@[0] == orig[i as int]);
        }
        let node = rest.remove(0);
        match node {
            XmlNode::Element(mut el) => {
                if !name_list_contains(&opts.removed_elements, &el.name) {
                    let new_attrs = remove_listed_attributes(&el.attributes, &opts.removed_attributes);
                    el.attributes = new_attrs;
                    out_children.push(XmlNode::Element(el));
                    proof {
                        assert(node_survives(orig[i as int], re));
                        assert(surviving_indices(orig.take(i + 1), re) == prev_idx.push(i as int));
                    }
                } else {
                    proof {
                        assert(!node_survives(orig[i as int], re));
                        assert(surviving_indices(orig.take(i + 1), re) == prev_idx);
                    }
                }
            },
            XmlNode::Comment(_) => {
                proof {
                    assert(surviving_indices(orig.take(i + 1), re) == prev_idx);
                }
            },
            other => {
                out_children.push(other);
                proof {
                    assert(node_survives(orig[i as int], re));
                    assert(surviving_indices(orig.take(i + 1), re) == prev_idx.push(i as int));
                }
            },
        }
        proof {
            assert(rest@ =~= orig.skip(i + 1));
        }
        i = i + 1;
    }
    proof {
        assert(orig.take(i as int) =~= orig);
    }
    let name: String = if symbol {
        "symbol".to_owned()
    } else {
        "g".to_owned()
    };
    XmlElement {
        prefix: None,
        namespace: None,
        namespaces: Vec::new(),
        name,
        attributes: out_attrs,
        children: out_children,
    }
}

/// The positions, in order, of the items that carry a parsed document.
pub open spec fn doc_indices(items: Seq<MergeItem>) -> Seq<int>
    decreases items.len(),
{
    if items.len() == 0 {
        Seq::empty()
    } else {
        let rest = doc_indices(items.drop_last());
        if items.last().doc is Some {
            rest.push(items.len() - 1)
        } else {
            rest
        }
    }
}

/// Every position listed by [`doc_indices`] lies inside the item list.
pub proof fn lemma_doc_indices_bounds(items: Seq<MergeItem>)
    ensures
        forall|k: int|
            0 <= k < doc_indices(items).len() ==> 0 <= #[trigger] doc_indices(items)[k]
                < items.len(),
    decreases items.len(),
{
    if items.len() > 0 {
        lemma_doc_indices_bounds(items.drop_last());
        let rest = doc_indices(items.drop_last());
        let di = doc_indices(items);
        assert forall|k: int| 0 <= k < di.len() implies 0 <= #[trigger] di[k] < items.len() by {
            if items.last().doc is Some {
                assert(di == rest.push(items.len() - 1));
                if k < rest.len() {
                    assert(di[k] == rest[k]);
                } else {
                    assert(di[k] == items.len() - 1);
                }
            } else {
                assert(di == rest);
            }
        }
    }
}

/// Attribute removal reaches only the surviving direct child element
/// itself: a kept element keeps its name, prefix, namespaces and — its
/// whole descendant tree included — its children exactly; a kept non-element
/// node is carried over unchanged.
pub proof fn lemma_descendants_untouched(orig: XmlNode, new: XmlNode, removed_attributes: Seq<Seq<char>>)
    requires
        node_kept(orig, new, removed_attributes),
    ensures
        match orig {
            XmlNode::Element(e) => new matches XmlNode::Element(f) && f.name == e.name
                && f.children == e.children,
            _ => new == orig,
        },
{
}

/// Filtering is order-preserving and removes exactly the comment nodes and
/// the listed element names: the surviving positions are in strictly
/// increasing order, each surviving position holds a surviving node, and
/// every surviving node's position is listed.
pub proof fn lemma_filtering_exact(cs: Seq<XmlNode>, removed_elements: Seq<Seq<char>>)
    ensures
        forall|k: int|
            0 <= k < surviving_indices(cs, removed_elements).len() ==> 0 <= #[trigger] surviving_indices(cs, removed_elements)[k] < cs.len()
                && node_survives(cs[surviving_indices(cs, removed_elements)[k]], removed_elements),
        forall|k1: int, k2: int|
            0 <= k1 < k2 < surviving_indices(cs, removed_elements).len()
                ==> #[trigger] surviving_indices(cs, removed_elements)[k1]
                < #[trigger] surviving_indices(cs, removed_elements)[k2],
        forall|j: int|
            0 <= j < cs.len() && node_survives(cs[j], removed_elements)
                ==> surviving_indices(cs, removed_elements).contains(j),
    decreases cs.len(),
{
    let idx = surviving_indices(cs, removed_elements);
    if cs.len() > 0 {
        let head = cs.drop_last();
        let prev = surviving_indices(head, removed_elements);
        lemma_filtering_exact(head, removed_elements);
        assert(forall|j: int| 0 <= j < head.len() ==> head[j] == cs[j]);
        assert forall|k: int| 0 <= k < idx.len() implies 0 <= #[trigger] idx[k] < cs.len()
            && node_survives(cs[idx[k]], removed_elements) by {
            if node_survives(cs.last(), removed_elements) {
                assert(idx == prev.push(cs.len() - 1));
                if k < prev.len() {
                    assert(idx[k] == prev[k]);
                } else {
                    assert(idx[k] == cs.len() - 1);
                    assert(cs[cs.len() - 1] == cs.last());
                }
            } else {
                assert(idx == prev);
            }
        }
        assert forall|k1: int, k2: int| 0 <= k1 < k2 < idx.len() implies #[trigger] idx[k1]
            < #[trigger] idx[k2] by {
            if node_survives(cs.last(), removed_elements) {
                assert(idx == prev.push(cs.len() - 1));
                if k2 < prev.len() {
                    assert(idx[k1] == prev[k1] && idx[k2] == prev[k2]);
                } else {
                    assert(idx[k1] == prev[k1] && idx[k2] == cs.len() - 1);
                    assert(0 <= prev[k1] < head.len());
                }
            } else {
                assert(idx == prev);
            }
        }
        assert forall|j: int| 0 <= j < cs.len() && node_survives(cs[j], removed_elements) implies
            idx.contains(j) by {
            if j < cs.len() - 1 {
                assert(node_survives(head[j], removed_elements));
                assert(prev.contains(j));
                let w = choose|w: int| 0 <= w < prev.len() && prev[w] == j;
                if node_survives(cs.last(), removed_elements) {
                    assert(idx[w] == prev[w]);
                } else {
                    assert(idx[w] == prev[w]);
                }
                assert(idx.contains(j));
            } else {
                assert(cs[j] == cs.last());
                assert(idx == prev.push(cs.len() - 1));
                assert(idx[idx.len() - 1] == j);
                assert(idx.contains(j));
            }
        }
    }
}

/// Whether `child` is the sub-element built from `item`'s parsed document.
pub open spec fn child_built_from(item: MergeItem, child: XmlNode, opts: MergeOptions) -> bool {
    match item.doc {
        Some(doc) => match child {
            XmlNode::Element(el) => is_transformed(doc, item.file.tree_names@, opts, el),
            _ => false,
        },
        None => false,
    }
}

/// Assembles the output document: one `svg` element carrying the two fixed
/// namespace declarations, whose children are the sub-elements built from
/// the items that carry a parsed document, in the items' order.  An item
/// without a document is dropped, and a document with no surviving children
/// still produces its (empty) sub-element.
pub fn merge(items: Vec<MergeItem>, opts: &MergeOptions) -> (r: XmlElement)
    ensures
        r.name@ == "svg"@,
        r.prefix is None,
        r.namespace is None,
        r.attributes@.len() == 0,
        pair_views(r.namespaces@) == output_namespaces(),
        r.children@.len() == doc_indices(items@).len(),
        forall|k: int|
            0 <= k < r.children@.len() ==> child_built_from(
                items@[doc_indices(items@)[k]],
                r.children@[k],
                *opts,
            ),
{
    let mut namespaces: Vec<(String, String)> = Vec::new();
    namespaces.push(("".to_owned(), "http://www.w3.org/2000/svg".to_owned()));
    namespaces.push(("xlink".to_owned(), "http://www.w3.org/1999/xlink".to_owned()));
    proof {
        assert(pair_views(namespaces@) =~= output_namespaces());
    }
    let mut children: Vec<XmlNode> = Vec::new();
    let mut rest: Vec<MergeItem> = items;
    let ghost orig: Seq<MergeItem> = rest@;
    let total: usize = rest.len();
    let mut i: usize = 0;
    proof {
        assert(orig.len() == total);
        assert(rest@ =~= orig.skip(0));
        assert(doc_indices(orig.take(0)) =~= Seq::<int>::empty());
    }
    while rest.len() > 0
        invariant
            0 <= i,
            orig.len() <= usize::MAX,
            i + rest@.len() == orig.len(),
            rest@ == orig.skip(i as int),
            children@.len() == doc_indices(orig.take(i as int)).len(),
            forall|k: int|
                0 <= k < children@.len() ==> child_built_from(
                    orig[doc_indices(orig.take(i as int))[k]],
                    children@[k],
                    *opts,
                ),
        decreases rest@.len(),
    {
        let ghost prev_idx = doc_indices(orig.take(i as int));
        proof {
            assert(orig.take(i + 1).drop_last() =~= orig.take(i as int));
            assert(orig.take(i + 1).last() == orig[i as int]);
            assert(rest@[0] == orig[i as int]);
        }
        let item = rest.remove(0);
        match item.doc {
            Some(doc) => {
                let sub = transform_document(doc, &item.file.tree_names, opts);
                children.push(XmlNode::Element(sub));
                proof {
                    assert(doc_indices(orig.take(i + 1)) == prev_idx.push(i as int));
                }
            },
            None => {
                proof {
                    assert(doc_indices(orig.take(i + 1)) == prev_idx);
                }
            },
        }
        proof {
            assert(rest@ =~= orig.skip(i + 1));
        }
        i = i + 1;
    }
    proof {
        assert(orig.take(i as int) =~= orig);
    }
    XmlElement {
        prefix: None,
        namespace: None,
        namespaces,
        name: "svg".to_owned(),
        attributes: Vec::new(),
        children,
    }
}

} // verus!
