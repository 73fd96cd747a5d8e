//! Rewrites chapter markup so that each word of its paragraphs and headings
//! becomes an element of its own, which a click can look up.

use vstd::prelude::*;
use vstd::string::StringExecFns;
use scraper::{Html, Node};
use crate::markup::Attr;
use crate::text::{is_word, lemma_three_words, split_words, str_eq, words_of};

verus! {

/// What a node of a parsed markup fragment is.
pub enum NodeKind {
    Element { name: String, attrs: Vec<Attr> },
    Text { text: String },
    /// A comment, a doctype or the like.
    Other,
}

/// A node of a parsed markup fragment, with its number of ancestors.
pub struct HtmlNode {
    pub depth: usize,
    pub kind: NodeKind,
}

/// Names the nodes of the fragment that `scraper::Html::parse_fragment`
/// builds from `html`, from its root element down, in document order, each
/// element's attributes in source order (scraper's `deterministic` feature
/// keeps them in an insertion-ordered map).
pub uninterp spec fn html_nodes_of(html: Seq<char>) -> Seq<HtmlNode>;

/// Relies on `scraper::Html::parse_fragment` and a walk over its root
/// element's descendants: with the `deterministic` feature, the tree and the
/// order of each element's attributes depend on the text alone.
#[verifier::external_body]
pub(crate) fn html_nodes(html: &str) -> (r: Vec<HtmlNode>)
    ensures
        r@ == html_nodes_of(html@),
{
    let frag = Html::parse_fragment(html);
    frag.root_element().descendants().map(|n| HtmlNode {
        depth: n.ancestors().count(),
        kind: match n.value() {
            Node::Element(e) => NodeKind::Element {
                name: e.name().to_string(),
                attrs: e.attrs().map(|(k, v)| Attr { name: k.to_string(), value: v.to_string() }).collect(),
            },
            Node::Text(t) => NodeKind::Text { text: t.text.to_string() },
            _ => NodeKind::Other,
        },
    }).collect()
}

/// The attributes as ` name="value"` each.
pub open spec fn attrs_text(attrs: Seq<Attr>) -> Seq<char>
    decreases attrs.len(),
{
    if attrs.len() == 0 {
        seq![]
    } else {
        attrs_text(attrs.drop_last()) + " "@ + attrs.last().name@ + "=\""@ + attrs.last().value@
            + "\""@
    }
}

/// An opening tag.
pub open spec fn open_tag(name: Seq<char>, attrs: Seq<Attr>) -> Seq<char> {
    "<"@ + name + attrs_text(attrs) + ">"@
}

/// A closing tag.
pub open spec fn close_tag(name: Seq<char>) -> Seq<char> {
    "</"@ + name + ">"@
}

/// One word, wrapped so that a click hands its text to the lookup.
pub open spec fn span_of(w: Seq<char>) -> Seq<char> {
    "<span onclick=\"window.translate(this.innerText)\">"@ + w + "</span>"@
}

/// The words, each wrapped, joined by single spaces.
pub open spec fn wrapped(words: Seq<Seq<char>>) -> Seq<char>
    decreases words.len(),
{
    if words.len() == 0 {
        seq![]
    } else if words.len() == 1 {
        span_of(words[0])
    } else {
        wrapped(words.drop_last()) + " "@ + span_of(words.last())
    }
}

/// Whether the element's words are wrapped: paragraphs and headings.
pub open spec fn text_bearing(name: Seq<char>) -> bool {
    name == "p"@ || name == "h1"@ || name == "h2"@ || name == "h3"@ || name == "h4"@ || name
        == "h5"@ || name == "h6"@
}

/// The rewriter's state: output so far, the open top-level element and
/// whether it bears text, and the open element inside it.
pub struct SegState {
    pub out: Seq<char>,
    pub block: Option<Seq<char>>,
    pub bearing: bool,
    pub child: Option<Seq<char>>,
}

/// Closes the open inner element.
pub open spec fn close_child(st: SegState) -> SegState {
    match st.child {
        Some(c) => SegState { out: st.out + close_tag(c), child: None, ..st },
        None => st,
    }
}

/// Closes the open top-level element.
pub open spec fn close_block(st: SegState) -> SegState {
    let s = close_child(st);
    match s.block {
        Some(b) => SegState { out: s.out + close_tag(b), block: None, ..s },
        None => s,
    }
}

/// The rewriter's state after one node; `root` is the depth of the root.
pub open spec fn seg_step(st: SegState, n: HtmlNode, root: int) -> SegState {
    let d = n.depth - root;
    if d == 1 {
        let s = close_block(st);
        match n.kind {
            NodeKind::Element { name, attrs } => SegState {
                out: s.out + open_tag(name@, attrs@),
                block: Some(name@),
                bearing: text_bearing(name@),
                ..s
            },
            _ => s,
        }
    } else if d == 2 && st.block is Some {
        let s = close_child(st);
        match n.kind {
            NodeKind::Text { text } => SegState {
                out: s.out + if s.bearing {
                    wrapped(words_of(text@))
                } else {
                    text@
                },
                ..s
            },
            NodeKind::Element { name, attrs } => SegState {
                out: s.out + open_tag(name@, attrs@),
                child: Some(name@),
                ..s
            },
            NodeKind::Other => s,
        }
    } else if d == 3 && st.child is Some {
        match n.kind {
            NodeKind::Text { text } => SegState { out: st.out + text@, ..st },
            _ => st,
        }
    } else {
        st
    }
}

/// The rewriter's state after the nodes `ns`.
pub open spec fn seg_state(ns: Seq<HtmlNode>, root: int) -> SegState
    decreases ns.len(),
{
    if ns.len() == 0 {
        SegState { out: seq![], block: None, bearing: false, child: None }
    } else {
        seg_step(seg_state(ns.drop_last(), root), ns.last(), root)
    }
}

/// The rewritten markup of the fragment whose nodes are `ns`, the first
/// being the root.
pub open spec fn segmented(ns: Seq<HtmlNode>) -> Seq<char> {
    if ns.len() == 0 {
        seq![]
    } else {
        close_block(seg_state(ns, ns[0].depth as int)).out
    }
}

/// Appends an opening tag.
fn push_open_tag(out: &mut String, name: &str, attrs: &Vec<Attr>)
    ensures
        final(out)@ == old(out)@ + open_tag(name@, attrs@),
{
    let ghost start = out@;
    out.append("<");
    out.append(name);
    let mut k: usize = 0;
    assert(attrs@.subrange(0, 0) =~= seq![]);
    assert(out@ =~= start + "<"@ + name@ + attrs_text(attrs@.subrange(0, 0)));
    while k < attrs.len()
        invariant
            k <= attrs@.len(),
            out@ == start + "<"@ + name@ + attrs_text(attrs@.subrange(0, k as int)),
        decreases attrs.len() - k,
    {
        let ghost pre = attrs@.subrange(0, k + 1);
        assert(pre.drop_last() =~= attrs@.subrange(0, k as int));
        let ghost before = out@;
        out.append(" ");
        out.append(attrs[k].name.as_str());
        out.append("=\"");
        out.append(attrs[k].value.as_str());
        out.append("\"");
        assert(out@ =~= start + "<"@ + name@ + attrs_text(pre));
        k = k + 1;
    }
    assert(attrs@.subrange(0, attrs@.len() as int) =~= attrs@);
    out.append(">");
    assert(out@ =~= start + open_tag(name@, attrs@));
}

/// Appends a closing tag.
fn push_close_tag(out: &mut String, name: &str)
    ensures
        final(out)@ == old(out)@ + close_tag(name@),
{
    out.append("</");
    out.append(name);
    out.append(">");
    assert(out@ =~= old(out)@ + close_tag(name@));
}

/// Appends the words of `text`, each wrapped, joined by single spaces.
fn push_wrapped(out: &mut String, text: &str)
    ensures
        final(out)@ == old(out)@ + wrapped(words_of(text@)),
{
    let ghost start = out@;
    let words = split_words(text);
    let ghost ws = words_of(text@);
    let mut k: usize = 0;
    assert(ws.subrange(0, 0) =~= seq![]);
    assert(out@ =~= start + wrapped(ws.subrange(0, 0)));
    while k < words.len()
        invariant
            k <= words@.len(),
            ws == words_of(text@),
            words@.len() == ws.len(),
            forall|i: int| 0 <= i < words@.len() ==> #[trigger] words@[i]@ == ws[i],
            out@ == start + wrapped(ws.subrange(0, k as int)),
        decreases words.len() - k,
    {
        let ghost pre = ws.subrange(0, k + 1);
        assert(pre.drop_last() =~= ws.subrange(0, k as int));
        assert(pre.last() == words@[k as int]@);
        let ghost before = out@;
        if k > 0 {
            out.append(" ");
        }
        out.append("<span onclick=\"window.translate(this.innerText)\">");
        out.append(words[k].as_str());
        out.append("</span>");
        if k > 0 {
            assert(out@ =~= before + " "@ + span_of(pre.last()));
        } else {
            assert(out@ =~= before + span_of(pre[0]));
        }
        assert(out@ =~= start + wrapped(pre));
        k = k + 1;
    }
    assert(ws.subrange(0, words@.len() as int) =~= ws);
}

/// Whether the element's words are wrapped.
fn is_text_bearing(name: &str) -> (r: bool)
    ensures
        r == text_bearing(name@),
{
    str_eq(name, "p") || str_eq(name, "h1") || str_eq(name, "h2") || str_eq(name, "h3")
        || str_eq(name, "h4") || str_eq(name, "h5") || str_eq(name, "h6")
}

/// The rewriter's state as values.
pub open spec fn seg_view(out: String, block: Option<String>, bearing: bool, child: Option<String>) -> SegState {
    SegState {
        out: out@,
        block: crate::markup::opt_view(block),
        bearing,
        child: crate::markup::opt_view(child),
    }
}

/// Closes the open inner element.
fn end_child(out: &mut String, child: &mut Option<String>, block: &Option<String>, bearing: bool)
    ensures
        seg_view(*final(out), *block, bearing, *final(child)) == close_child(
            seg_view(*old(out), *block, bearing, *old(child)),
        ),
{
    match child {
        Some(c) => {
            push_close_tag(out, c.as_str());
        },
        None => {},
    }
    *child = None;
}

/// Closes the open top-level element.
fn end_block(out: &mut String, child: &mut Option<String>, block: &mut Option<String>, bearing: bool)
    ensures
        seg_view(*final(out), *final(block), bearing, *final(child)) == close_block(
            seg_view(*old(out), *old(block), bearing, *old(child)),
        ),
{
    end_child(out, child, block, bearing);
    match block {
        Some(b) => {
            push_close_tag(out, b.as_str());
        },
        None => {},
    }
    *block = None;
}

/// Rewrites the fragment whose nodes are `nodes`, the first being the root:
/// each top-level paragraph or heading has the words of its own text
/// wrapped one by one; other top-level elements keep their text; an element
/// inside a top-level one keeps only its own text.
pub fn segment_nodes(nodes: &Vec<HtmlNode>) -> (r: String)
    ensures
        r@ == segmented(nodes@),
{
    let mut out = String::new();
    if nodes.len() == 0 {
        return out;
    }
    let root: usize = nodes[0].depth;
    let mut block: Option<String> = None;
    let mut bearing = false;
    let mut child: Option<String> = None;
    let mut i: usize = 0;
    assert(nodes@.subrange(0, 0) =~= seq![]);
    while i < nodes.len()
        invariant
            i <= nodes@.len(),
            root == nodes@[0].depth,
            seg_view(out, block, bearing, child) == seg_state(nodes@.subrange(0, i as int), root as int),
        decreases nodes.len() - i,
    {
        let ghost pre = nodes@.subrange(0, i + 1);
        assert(pre.drop_last() =~= nodes@.subrange(0, i as int));
        let ghost before = seg_view(out, block, bearing, child);
        let n = &nodes[i];
        if n.depth > root && n.depth - root == 1 {
            end_block(&mut out, &mut child, &mut block, bearing);
            match &n.kind {
                NodeKind::Element { name, attrs } => {
                    push_open_tag(&mut out, name.as_str(), attrs);
                    block = Some(name.clone());
                    bearing = is_text_bearing(name.as_str());
                },
                _ => {},
            }
        } else if n.depth > root && n.depth - root == 2 && block.is_some() {
            end_child(&mut out, &mut child, &block, bearing);
            match &n.kind {
                NodeKind::Text { text } => {
                    if bearing {
                        push_wrapped(&mut out, text.as_str());
                    } else {
                        out.append(text.as_str());
                    }
                },
                NodeKind::Element { name, attrs } => {
                    push_open_tag(&mut out, name.as_str(), attrs);
                    child = Some(name.clone());
                },
                NodeKind::Other => {},
            }
        } else if n.depth > root && n.depth - root == 3 && child.is_some() {
            match &n.kind {
                NodeKind::Text { text } => {
                    out.append(text.as_str());
                },
                _ => {},
            }
        }
        assert(seg_view(out, block, bearing, child) =~= seg_step(before, nodes@[i as int], root as int));
        i = i + 1;
    }
    assert(nodes@.subrange(0, nodes@.len() as int) =~= nodes@);
    end_block(&mut out, &mut child, &mut block, bearing);
    out
}

/// Rewrites chapter markup so that each word of its top-level paragraphs
/// and headings can be looked up on its own.
pub fn wrap_words_with_translate(html: &str) -> (r: String)
    ensures
        r@ == segmented(html_nodes_of(html@)),
{
    let nodes = html_nodes(html);
    segment_nodes(&nodes)
}

/// A paragraph or heading whose only child is text: its words are wrapped
/// one by one, in order, joined by single spaces, between the element's own
/// tags.
pub proof fn lemma_paragraph_words_wrapped(ns: Seq<HtmlNode>)
    requires
        ns.len() == 3,
        ns[1].depth == ns[0].depth + 1,
        ns[2].depth == ns[0].depth + 2,
        ns[1].kind is Element,
        text_bearing(ns[1].kind->Element_name@),
        ns[2].kind is Text,
    ensures
        segmented(ns) == open_tag(ns[1].kind->Element_name@, ns[1].kind->Element_attrs@)
            + wrapped(words_of(ns[2].kind->text@)) + close_tag(ns[1].kind->Element_name@),
{
    let r = ns[0].depth as int;
    let s1 = ns.subrange(0, 1);
    let s2 = ns.subrange(0, 2);
    assert(s1.drop_last() =~= seq![]);
    assert(s2.drop_last() =~= s1);
    assert(ns.drop_last() =~= s2);
    assert(s1.last() == ns[0]);
    assert(s2.last() == ns[1]);
    assert(ns.last() == ns[2]);
    let name = ns[1].kind->Element_name@;
    let st0 = seg_state(s1.drop_last(), r);
    assert(st0 == SegState { out: seq![], block: None, bearing: false, child: None });
    assert(s1.last().depth - r == 0);
    let st1 = seg_state(s1, r);
    assert(st1 == SegState { out: seq![], block: None, bearing: false, child: None });
    let st2 = seg_state(s2, r);
    let tag = open_tag(name, ns[1].kind->Element_attrs@);
    assert(st1.out + tag =~= tag);
    assert(st2.out == open_tag(name, ns[1].kind->Element_attrs@));
    assert(st2.block == Some(name) && st2.bearing && st2.child is None);
    let st3 = seg_state(ns, r);
    assert(st3.out == st2.out + wrapped(words_of(ns[2].kind->text@)));
    assert(st3.child is None && st3.block == Some(name));
}

/// A paragraph or heading whose only child is the text `w1 w2 w3` becomes
/// its opening tag, exactly three wrapped words in order, each carrying one
/// of the words, separated by single spaces, and its closing tag.
pub proof fn lemma_three_words_wrapped(ns: Seq<HtmlNode>, w1: Seq<char>, w2: Seq<char>, w3: Seq<char>)
    requires
        ns.len() == 3,
        ns[1].depth == ns[0].depth + 1,
        ns[2].depth == ns[0].depth + 2,
        ns[1].kind is Element,
        text_bearing(ns[1].kind->Element_name@),
        ns[2].kind is Text,
        ns[2].kind->text@ == w1 + seq![' '] + w2 + seq![' '] + w3,
        is_word(w1),
        is_word(w2),
        is_word(w3),
    ensures
        segmented(ns) == open_tag(ns[1].kind->Element_name@, ns[1].kind->Element_attrs@) + span_of(w1)
            + " "@ + span_of(w2) + " "@ + span_of(w3) + close_tag(ns[1].kind->Element_name@),
{
    lemma_paragraph_words_wrapped(ns);
    lemma_three_words(w1, w2, w3);
    let ws = seq![w1, w2, w3];
    assert(ws.drop_last() =~= seq![w1, w2]);
    assert(seq![w1, w2].drop_last() =~= seq![w1]);
    assert(wrapped(seq![w1]) == span_of(w1));
    assert(wrapped(seq![w1, w2]) == span_of(w1) + " "@ + span_of(w2));
    assert(wrapped(ws) == wrapped(seq![w1, w2]) + " "@ + span_of(w3));
    let t = open_tag(ns[1].kind->Element_name@, ns[1].kind->Element_attrs@);
    let c = close_tag(ns[1].kind->Element_name@);
    assert(t + wrapped(ws) + c =~= t + span_of(w1) + " "@ + span_of(w2) + " "@ + span_of(w3) + c);
}

} // verus!
