//! Parsing of source texts, and the pipeline from read sources to the
//! assembled output document.
//!
//! Parsing is done by the `xmltree` crate behind a small trusted boundary:
//! whether a text parses is a function of the text alone and is named by
//! [`svg_parses`]; the parsed tree is carried into the library's model and
//! everything after that point is verified for every value of it.

use crate::ident::spec_join;
use crate::merge::doc_indices;
use crate::merge::id_name;
use crate::merge::merge;
use crate::merge::tag_name;
use crate::merge::transformed_attrs;
use crate::merge::viewbox_name;
use crate::merge::MergeItem;
use crate::merge::MergeOptions;
use crate::merge::SVGTag;
use crate::merge::output_namespaces;
use crate::walker::SVGFile;
use crate::xml::lookup_key;
use crate::xml::pair_views;
use crate::xml::seq_views;
use crate::xml::XmlElement;
use crate::xml::XmlNode;
use vstd::prelude::*;

verus! {

/// One discovered file together with its text, where reading it succeeded.
pub struct SourceContent {
    pub file: SVGFile,
    pub text: Option<String>,
}

#[verifier::external_type_specification]
#[verifier::external_body]
pub struct ExElement(xmltree::Element);

#[verifier::external_type_specification]
#[verifier::external_body]
pub struct ExXMLNode(xmltree::XMLNode);

/// Whether the parser accepts `text` as a well-formed document; success
/// depends on the text alone.
pub uninterp spec fn svg_parses(text: Seq<char>) -> bool;

/// Relies on `xmltree::Element::parse`: it returns the document's root
/// element where the text is a well-formed document and an error where it
/// is not, and which of the two happens depends on the text alone.
#[verifier::external_body]
fn parse_document(text: &str) -> (r: Option<xmltree::Element>)
    ensures
        r is Some <==> svg_parses(text@),
{
    xmltree::Element::parse(text.as_bytes()).ok()
}

/// Relies on the public fields of `xmltree::Element`: the parsed element is
/// carried into the library's model field for field, the attribute and
/// namespace maps as pair lists and the children through [`convert_node`].
#[verifier::external_body]
fn convert_element(e: xmltree::Element) -> XmlElement {
    let attributes: Vec<(String, String)> = e.attributes.into_iter().collect();
    let namespaces: Vec<(String, String)> = match e.namespaces {
        Some(ns) => ns.0.into_iter().collect(),
        None => Vec::new(),
    };
    let children: Vec<XmlNode> = e.children.into_iter().map(convert_node).collect();
    XmlElement {
        prefix: e.prefix,
        namespace: e.namespace,
        namespaces,
        name: e.name,
        attributes,
        children,
    }
}

/// Relies on the variants of `xmltree::XMLNode`: each is carried into the
/// library's model variant for variant, fields moved as they are.
#[verifier::external_body]
fn convert_node(n: xmltree::XMLNode) -> XmlNode {
    match n {
        xmltree::XMLNode::Element(e) => XmlNode::Element(convert_element(e)),
        xmltree::XMLNode::Comment(s) => XmlNode::Comment(s),
        xmltree::XMLNode::CData(s) => XmlNode::CData(s),
        xmltree::XMLNode::Text(s) => XmlNode::Text(s),
        xmltree::XMLNode::ProcessingInstruction(name, data) => XmlNode::ProcessingInstruction(
            name,
            data,
        ),
    }
}

/// Parses one source text into the library's model, or `None` where the
/// text is not a well-formed document.
pub fn parse_svg(text: &str) -> (r: Option<XmlElement>)
    ensures
        r is Some <==> svg_parses(text@),
{
    match parse_document(text) {
        Some(e) => Some(convert_element(e)),
        None => None,
    }
}

/// How one parsed item relates to its source: same file, and a document
/// exactly where the text was read and parses.
pub open spec fn parsed_item_of(src: SourceContent, item: MergeItem) -> bool {
    &&& item.file == src.file
    &&& match src.text {
        Some(t) => item.doc is Some <==> svg_parses(t@),
        None => item.doc is None,
    }
}

/// Parses each source whose text was read, in order: every source yields
/// one item, carrying a document exactly where the text parses.
pub fn parse_sources(sources: Vec<SourceContent>) -> (r: Vec<MergeItem>)
    ensures
        r@.len() == sources@.len(),
        forall|i: int| 0 <= i < r@.len() ==> parsed_item_of(sources@[i], r@[i]),
{
    let mut out: Vec<MergeItem> = Vec::new();
    let mut rest: Vec<SourceContent> = sources;
    let ghost orig: Seq<SourceContent> = rest@;
    let total: usize = rest.len();
    let mut i: usize = 0;
    proof {
        assert(orig.len() == total);
        assert(rest@ =~= orig.skip(0));
    }
    while rest.len() > 0
        invariant
            0 <= i,
            orig.len() <= usize::MAX,
            i + rest@.len() == orig.len(),
            rest@ == orig.skip(i as int),
            out@.len() == i,
            forall|k: int| 0 <= k < i ==> parsed_item_of(orig[k], out@[k]),
        decreases rest@.len(),
    {
        proof {
            assert(rest@[0] == orig[i as int]);
        }
        let src = rest.remove(0);
        let doc = match &src.text {
            Some(t) => parse_svg(t.as_str()),
            None => None,
        };
        out.push(MergeItem { file: src.file, doc });
        proof {
            assert(rest@ =~= orig.skip(i + 1));
        }
        i = i + 1;
    }
    out
}

/// The positions, in order, of the sources whose text was read and parses.
pub open spec fn parsed_indices(sources: Seq<SourceContent>) -> Seq<int>
    decreases sources.len(),
{
    if sources.len() == 0 {
        Seq::empty()
    } else {
        let rest = parsed_indices(sources.drop_last());
        let last_ok = match sources.last().text {
            Some(t) => svg_parses(t@),
            None => false,
        };
        if last_ok {
            rest.push(sources.len() - 1)
        } else {
            rest
        }
    }
}

/// The items of [`parse_sources`] carry a document at exactly the positions
/// where the source's text parses.
pub proof fn lemma_indices_match(sources: Seq<SourceContent>, items: Seq<MergeItem>)
    requires
        items.len() == sources.len(),
        forall|i: int| 0 <= i < items.len() ==> parsed_item_of(sources[i], items[i]),
    ensures
        doc_indices(items) == parsed_indices(sources),
    decreases items.len(),
{
    if items.len() == 0 {
        assert(doc_indices(items) =~= parsed_indices(sources));
    } else {
        assert(forall|i: int|
            0 <= i < items.len() - 1 ==> parsed_item_of(
                sources.drop_last()[i],
                items.drop_last()[i],
            ));
        lemma_indices_match(sources.drop_last(), items.drop_last());
        assert(parsed_item_of(sources.last(), items.last()));
    }
}

/// The generated identifier is always the last attribute of a transformed
/// element, and looking the `id` name up finds exactly it.
pub proof fn lemma_transformed_id(
    doc_attrs: Seq<(Seq<char>, Seq<char>)>,
    tag: SVGTag,
    id: Seq<char>,
)
    ensures
        lookup_key(transformed_attrs(doc_attrs, tag, id), id_name()) == Some(id),
{
    reveal_strlit("viewBox");
    reveal_strlit("id");
    let ts = transformed_attrs(doc_attrs, tag, id);
    if lookup_key(doc_attrs, viewbox_name()) is Some && tag is Symbol {
        assert(ts.len() == 2);
        assert(ts[0].0 == viewbox_name());
        assert(viewbox_name() != id_name());
        assert(ts.drop_first() =~= seq![(id_name(), id)]);
        assert(lookup_key(ts.drop_first(), id_name()) == Some(id));
    } else {
        assert(ts =~= seq![(id_name(), id)]);
        assert(lookup_key(ts, id_name()) == Some(id));
    }
}

/// Runs the whole pipeline over read sources: parse each, drop what does
/// not parse, and assemble the output document.  The output carries one
/// child per parsing source, in order, each an element of the configured
/// tag whose `id` attribute is that source's segments joined with the
/// separator.
pub fn build_sprite(sources: Vec<SourceContent>, opts: &MergeOptions) -> (r: XmlElement)
    ensures
        r.name@ == "svg"@,
        r.prefix is None,
        r.namespace is None,
        r.attributes@.len() == 0,
        pair_views(r.namespaces@) == output_namespaces(),
        r.children@.len() == parsed_indices(sources@).len(),
        forall|k: int|
            0 <= k < r.children@.len() ==> ((#[trigger] r.children@[k]) matches XmlNode::Element(el)
                && el.name@ == tag_name(opts.tag) && lookup_key(
                pair_views(el.attributes@),
                id_name(),
            ) == Some(
                spec_join(
                    seq_views(sources@[parsed_indices(sources@)[k]].file.tree_names@),
                    opts.separator@,
                ),
            )),
{
    let ghost srcs: Seq<SourceContent> = sources@;
    let items = parse_sources(sources);
    let ghost items_seq: Seq<MergeItem> = items@;
    proof {
        lemma_indices_match(srcs, items_seq);
    }
    let r = merge(items, opts);
    proof {
        crate::merge::lemma_doc_indices_bounds(items_seq);
        assert forall|k: int| 0 <= k < r.children@.len() implies ((#[trigger] r.children@[k]) matches
            XmlNode::Element(el) && el.name@ == tag_name(opts.tag) && lookup_key(
            pair_views(el.attributes@),
            id_name(),
        ) == Some(
            spec_join(
                seq_views(srcs[parsed_indices(srcs)[k]].file.tree_names@),
                opts.separator@,
            ),
        )) by {
            let j = doc_indices(items_seq)[k];
            assert(crate::merge::child_built_from(items_seq[j], r.children@[k], *opts));
            assert(parsed_item_of(srcs[j], items_seq[j]));
            let item = items_seq[j];
            let d = item.doc.unwrap();
            lemma_transformed_id(
                pair_views(d.attributes@),
                opts.tag,
                spec_join(seq_views(item.file.tree_names@), opts.separator@),
            );
        }
    }
    r
}

} // verus!
