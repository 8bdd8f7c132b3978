//! The structure of a chapter as the reader lays it out: headings,
//! paragraphs, images, tables and lists made of styled text runs, parsed
//! from the chapter's XHTML.
use vstd::prelude::*;

use crate::css::CssRule;
use crate::entities::{
    collapse_html_whitespace, collapse_ws, collapsed, decode_entities, decode_numeric, lemma_collapse_ws_collapsed,
    lemma_collapsed_subrange, named_references, replace_each,
};
use crate::text::{chars_of, push_str, trim, trim_end, trim_start, views_of};

verus! {

// ---------------------------------------------------------------------------
// The content model
// ---------------------------------------------------------------------------

/// A run of text with one style.
#[derive(Debug, Clone)]
pub struct StyledSpan {
    pub text: String,
    pub bold: bool,
    pub italic: bool,
    pub underline: bool,
    pub strikethrough: bool,
    pub link: Option<String>,
    pub classes: Vec<String>,
}

/// An element of a line of text: a styled run, a forced line break, or an
/// image drawn in the line.
#[derive(Debug, Clone)]
pub enum InlineNode {
    Text(StyledSpan),
    LineBreak,
    Image { src: String, alt: String, classes: Vec<String> },
}

#[derive(Debug, Clone, Copy, PartialEq, Eq, Structural)]
pub enum InlineBlockKind {
    Heading(u8),
    Paragraph,
}

#[derive(Debug, Clone)]
pub struct TableCell {
    pub text: String,
    pub header: bool,
    pub classes: Vec<String>,
}

#[derive(Debug, Clone)]
pub struct TableRow {
    pub cells: Vec<TableCell>,
    pub classes: Vec<String>,
}

#[derive(Debug, Clone)]
pub struct ListItem {
    pub spans: Vec<StyledSpan>,
    pub classes: Vec<String>,
    pub depth: usize,
}

/// A block of a chapter.
#[derive(Debug, Clone)]
pub enum ContentBlock {
    Heading { level: u8, spans: Vec<StyledSpan>, classes: Vec<String> },
    Paragraph { spans: Vec<StyledSpan>, classes: Vec<String> },
    Image { src: String, alt: String },
    Inline { kind: InlineBlockKind, nodes: Vec<InlineNode>, classes: Vec<String> },
    Table { rows: Vec<TableRow>, classes: Vec<String> },
    List { ordered: bool, items: Vec<ListItem>, classes: Vec<String> },
    Separator,
}

// ---------------------------------------------------------------------------
// Their mathematical views
// ---------------------------------------------------------------------------

pub type Classes = Seq<Seq<char>>;

#[verifier::ext_equal]
pub struct SpanView {
    pub text: Seq<char>,
    pub bold: bool,
    pub italic: bool,
    pub underline: bool,
    pub strikethrough: bool,
    pub link: Option<Seq<char>>,
    pub classes: Classes,
}

pub enum NodeView {
    Text(SpanView),
    LineBreak,
    Image(Seq<char>, Seq<char>, Classes),
}

#[verifier::ext_equal]
pub struct CellView {
    pub text: Seq<char>,
    pub header: bool,
    pub classes: Classes,
}

#[verifier::ext_equal]
pub struct RowView {
    pub cells: Seq<CellView>,
    pub classes: Classes,
}

#[verifier::ext_equal]
pub struct ItemView {
    pub spans: Seq<SpanView>,
    pub classes: Classes,
    pub depth: nat,
}

pub enum BlockView {
    Heading(u8, Seq<SpanView>, Classes),
    Paragraph(Seq<SpanView>, Classes),
    Image(Seq<char>, Seq<char>),
    Inline(InlineBlockKind, Seq<NodeView>, Classes),
    Table(Seq<RowView>, Classes),
    List(bool, Seq<ItemView>, Classes),
    Separator,
}

pub open spec fn opt_str(o: Option<String>) -> Option<Seq<char>> {
    match o {
        Some(s) => Some(s@),
        None => None,
    }
}

pub open spec fn span_view(s: StyledSpan) -> SpanView {
    SpanView {
        text: s.text@,
        bold: s.bold,
        italic: s.italic,
        underline: s.underline,
        strikethrough: s.strikethrough,
        link: opt_str(s.link),
        classes: views_of(s.classes@),
    }
}

pub open spec fn span_views(s: Seq<StyledSpan>) -> Seq<SpanView> {
    s.map_values(|x: StyledSpan| span_view(x))
}

pub open spec fn node_view(n: InlineNode) -> NodeView {
    match n {
        InlineNode::Text(s) => NodeView::Text(span_view(s)),
        InlineNode::LineBreak => NodeView::LineBreak,
        InlineNode::Image { src, alt, classes } => NodeView::Image(src@, alt@, views_of(classes@)),
    }
}

pub open spec fn node_views(s: Seq<InlineNode>) -> Seq<NodeView> {
    s.map_values(|x: InlineNode| node_view(x))
}

pub open spec fn cell_view(c: TableCell) -> CellView {
    CellView { text: c.text@, header: c.header, classes: views_of(c.classes@) }
}

pub open spec fn row_view(r: TableRow) -> RowView {
    RowView { cells: r.cells@.map_values(|c: TableCell| cell_view(c)), classes: views_of(r.classes@) }
}

pub open spec fn item_view(i: ListItem) -> ItemView {
    ItemView { spans: span_views(i.spans@), classes: views_of(i.classes@), depth: i.depth as nat }
}

pub open spec fn block_view(b: ContentBlock) -> BlockView {
    match b {
        ContentBlock::Heading { level, spans, classes } => BlockView::Heading(
            level,
            span_views(spans@),
            views_of(classes@),
        ),
        ContentBlock::Paragraph { spans, classes } => BlockView::Paragraph(span_views(spans@), views_of(classes@)),
        ContentBlock::Image { src, alt } => BlockView::Image(src@, alt@),
        ContentBlock::Inline { kind, nodes, classes } => BlockView::Inline(
            kind,
            node_views(nodes@),
            views_of(classes@),
        ),
        ContentBlock::Table { rows, classes } => BlockView::Table(
            rows@.map_values(|r: TableRow| row_view(r)),
            views_of(classes@),
        ),
        ContentBlock::List { ordered, items, classes } => BlockView::List(
            ordered,
            items@.map_values(|i: ListItem| item_view(i)),
            views_of(classes@),
        ),
        ContentBlock::Separator => BlockView::Separator,
    }
}

pub open spec fn block_views(s: Seq<ContentBlock>) -> Seq<BlockView> {
    s.map_values(|x: ContentBlock| block_view(x))
}

// ---------------------------------------------------------------------------
// Inline helpers
// ---------------------------------------------------------------------------

/// The text a line shows: runs as written, line breaks as `\n`, images by
/// their alternative text.
pub open spec fn nodes_text(nodes: Seq<NodeView>) -> Seq<char>
    decreases nodes.len(),
{
    if nodes.len() == 0 {
        Seq::empty()
    } else {
        nodes_text(nodes.drop_last()) + match nodes.last() {
            NodeView::Text(s) => s.text,
            NodeView::LineBreak => seq!['\n'],
            NodeView::Image(_, alt, _) => alt,
        }
    }
}

pub fn inline_nodes_text(nodes: &[InlineNode]) -> (r: String)
    ensures
        r@ == nodes_text(node_views(nodes@)),
{
    let mut r = String::new();
    let mut i: usize = 0;
    while i < nodes.len()
        invariant
            i <= nodes.len(),
            r@ == nodes_text(node_views(nodes@).take(i as int)),
        decreases nodes.len() - i,
    {
        proof {
            let nv = node_views(nodes@);
            assert(nv.take(i + 1).drop_last() =~= nv.take(i as int));
            assert(nv.take(i + 1).last() == node_view(nodes@[i as int]));
        }
        match &nodes[i] {
            InlineNode::Text(span) => push_str(&mut r, span.text.as_str()),
            InlineNode::LineBreak => crate::text::push_char(&mut r, '\n'),
            InlineNode::Image { alt, .. } => push_str(&mut r, alt.as_str()),
        }
        proof {
            if nodes@[i as int] is LineBreak {
                assert(seq!['\n'] =~= seq!['\n']);
            }
        }
        i += 1;
    }
    assert(node_views(nodes@).take(nodes.len() as int) =~= node_views(nodes@));
    r
}

/// The text runs among a line's nodes.
pub open spec fn text_spans(nodes: Seq<NodeView>) -> Seq<SpanView>
    decreases nodes.len(),
{
    if nodes.len() == 0 {
        Seq::empty()
    } else {
        text_spans(nodes.drop_last()) + match nodes.last() {
            NodeView::Text(s) => seq![s],
            _ => Seq::empty(),
        }
    }
}

/// Takes the text runs out of a line, leaving it empty.
pub fn take_text_spans(nodes: &mut Vec<InlineNode>) -> (r: Vec<StyledSpan>)
    ensures
        span_views(r@) == text_spans(node_views(old(nodes)@)),
        final(nodes)@ == Seq::<InlineNode>::empty(),
{
    let ghost nv = node_views(nodes@);
    let mut taken: Vec<InlineNode> = Vec::new();
    std::mem::swap(&mut taken, nodes);
    let mut r: Vec<StyledSpan> = Vec::new();
    let ghost n = taken.len();
    while taken.len() > 0
        invariant
            taken.len() <= n,
            n == nv.len(),
            node_views(taken@) == nv.skip(n - taken.len()),
            span_views(r@) == text_spans(nv.take(n - taken.len())),
        decreases taken.len(),
    {
        let ghost k = n - taken.len();
        let ghost before_t = taken@;
        let node = taken.remove(0);
        proof {
            assert(taken@ =~= before_t.skip(1));
            assert forall|j: int| 0 <= j < taken.len() implies node_views(taken@)[j] == nv.skip(k + 1)[j] by {
                assert(node_views(taken@)[j] == node_view(taken@[j]));
                assert(taken@[j] == before_t[j + 1]);
                assert(node_views(before_t)[j + 1] == node_view(before_t[j + 1]));
            }
            assert(nv.skip(k)[0] == node_view(node));
            assert(nv.take(k + 1).drop_last() =~= nv.take(k));
            assert(nv.take(k + 1).last() == nv[k]);
            assert(node_views(taken@) =~= nv.skip(k + 1));
        }
        let ghost before = r@;
        match node {
            InlineNode::Text(span) => {
                r.push(span);
                assert(span_views(r@) =~= span_views(before).push(span_view(span)));
            },
            _ => {
                assert(span_views(r@) =~= span_views(before) + Seq::<SpanView>::empty());
            },
        }
    }
    assert(nv.take(n as int) =~= nv);
    r
}

// ---------------------------------------------------------------------------
// Closing blocks
// ---------------------------------------------------------------------------

pub open spec fn is_text_node(n: NodeView) -> bool {
    n is Text
}

/// A run with no characters.
pub open spec fn is_empty_text(n: NodeView) -> bool {
    match n {
        NodeView::Text(s) => s.text.len() == 0,
        _ => false,
    }
}

pub open spec fn node_classes(n: NodeView) -> Classes {
    match n {
        NodeView::Text(s) => s.classes,
        _ => Seq::empty(),
    }
}

/// The text a run keeps at an edge of its block, given its text trimmed
/// there: the trimmed text, except that a run carrying classes which
/// trimming would leave empty keeps its own text.
pub open spec fn edge_text(n: NodeView, trimmed: Seq<char>) -> Seq<char> {
    if trimmed.len() == 0 && node_classes(n).len() > 0 {
        node_text(n)
    } else {
        trimmed
    }
}

pub open spec fn with_text(n: NodeView, t: Seq<char>) -> NodeView {
    match n {
        NodeView::Text(s) => NodeView::Text(SpanView { text: t, ..s }),
        _ => n,
    }
}

pub open spec fn node_text(n: NodeView) -> Seq<char> {
    match n {
        NodeView::Text(s) => s.text,
        _ => Seq::empty(),
    }
}

/// A line's nodes as a block keeps them: the first run without leading
/// white space, the last without trailing white space (a run carrying
/// classes that trimming would empty keeps its text, so that the styled
/// space it holds stays), and the runs with no characters dropped.
pub open spec fn trimmed_nodes(spans: Seq<NodeView>) -> Seq<NodeView> {
    let t1 = if spans.len() > 0 && is_text_node(spans[0]) {
        spans.update(0, with_text(spans[0], edge_text(spans[0], trim_start(node_text(spans[0])))))
    } else {
        spans
    };
    let t2 = if t1.len() > 0 && is_text_node(t1.last()) {
        t1.update(t1.len() - 1, with_text(t1.last(), edge_text(t1.last(), trim_end(node_text(t1.last())))))
    } else {
        t1
    };
    t2.filter(|n: NodeView| !is_empty_text(n))
}

/// The blocks after a line is closed: nothing is added for a line with no
/// visible run; a line holding a break or an image becomes an inline block;
/// otherwise a heading of the open level, or a paragraph.
pub open spec fn closed_blocks(
    blocks: Seq<BlockView>,
    spans: Seq<NodeView>,
    heading: Option<u8>,
    classes: Classes,
) -> Seq<BlockView> {
    let t = trimmed_nodes(spans);
    if spans.len() == 0 || t.len() == 0 {
        blocks
    } else if exists|i: int| 0 <= i < t.len() && !is_text_node(#[trigger] t[i]) {
        blocks.push(
            BlockView::Inline(
                match heading {
                    Some(l) => InlineBlockKind::Heading(l),
                    None => InlineBlockKind::Paragraph,
                },
                t,
                classes,
            ),
        )
    } else {
        match heading {
            Some(l) => blocks.push(BlockView::Heading(l, text_spans(t), classes)),
            None => blocks.push(BlockView::Paragraph(text_spans(t), classes)),
        }
    }
}

fn trimmed_text(t: &String, start: bool) -> (r: String)
    ensures
        start ==> r@ == trim_start(t@),
        !start ==> r@ == trim_end(t@),
{
    let v = chars_of(t.as_str());
    let (a, b) = crate::text::trim_bounds(&v, 0, v.len());
    proof {
        assert(v@.subrange(0, v@.len() as int) =~= v@);
    }
    if start {
        let mut i: usize = 0;
        while i < v.len() && crate::text::is_whitespace(v[i])
            invariant
                i <= v.len(),
                v@ == t@,
                crate::text::leading_ws(v@) == i + crate::text::leading_ws(v@.skip(i as int)),
            decreases v.len() - i,
        {
            assert(v@.skip(i as int).skip(1) =~= v@.skip(i + 1));
            i += 1;
        }
        proof {
            if i < v.len() {
                assert(v@.skip(i as int)[0] == v@[i as int]);
            }
            assert(v@.skip(i as int) =~= v@.subrange(i as int, v@.len() as int));
        }
        crate::text::string_from_range(&v, i, v.len())
    } else {
        let mut j: usize = v.len();
        while j > 0 && crate::text::is_whitespace(v[j - 1])
            invariant
                j <= v.len(),
                v@ == t@,
                crate::text::trailing_ws(v@) == (v.len() - j) + crate::text::trailing_ws(v@.take(j as int)),
            decreases j,
        {
            assert(v@.take(j as int).drop_last() =~= v@.take(j - 1));
            j -= 1;
        }
        proof {
            if j > 0 {
                assert(v@.take(j as int).last() == v@[j - 1]);
            }
            assert(v@.take(j as int) =~= v@.subrange(0, j as int));
            crate::text::lemma_trailing_ws_bound(v@);
        }
        crate::text::string_from_range(&v, 0, j)
    }
}

fn retrim_node(n: InlineNode, start: bool) -> (r: InlineNode)
    ensures
        start ==> node_view(r) == with_text(node_view(n), edge_text(node_view(n), trim_start(node_text(node_view(n))))),
        !start ==> node_view(r) == with_text(node_view(n), edge_text(node_view(n), trim_end(node_text(node_view(n))))),
{
    match n {
        InlineNode::Text(sp) => {
            let trimmed = trimmed_text(&sp.text, start);
            let text = if trimmed.as_str().unicode_len() == 0 && sp.classes.len() > 0 {
                sp.text
            } else {
                trimmed
            };
            InlineNode::Text(
                StyledSpan {
                    text,
                    bold: sp.bold,
                    italic: sp.italic,
                    underline: sp.underline,
                    strikethrough: sp.strikethrough,
                    link: sp.link,
                    classes: sp.classes,
                },
            )
        },
        other => other,
    }
}

/// Closes the open line into a block; see `closed_blocks`. The line is
/// left empty.
pub fn push_block(blocks: &mut Vec<ContentBlock>, spans: &mut Vec<InlineNode>, heading: Option<u8>, classes: Vec<String>)
    ensures
        block_views(final(blocks)@) == closed_blocks(block_views(old(blocks)@), node_views(old(spans)@), heading, views_of(classes@)),
        final(spans)@ == Seq::<InlineNode>::empty(),
{
    let ghost sv = node_views(spans@);
    if spans.len() == 0 {
        return;
    }
    let first = spans.remove(0);
    let first = retrim_node(first, true);
    spans.insert(0, first);
    let ghost t1 = node_views(spans@);
    proof {
        let e = if sv.len() > 0 && is_text_node(sv[0]) {
            sv.update(0, with_text(sv[0], edge_text(sv[0], trim_start(node_text(sv[0])))))
        } else {
            sv
        };
        assert(t1 =~= e);
    }
    let last_index = spans.len() - 1;
    let last = spans.remove(last_index);
    let last = retrim_node(last, false);
    spans.push(last);
    let ghost t2 = node_views(spans@);
    proof {
        let e = if t1.len() > 0 && is_text_node(t1.last()) {
            t1.update(t1.len() - 1, with_text(t1.last(), edge_text(t1.last(), trim_end(node_text(t1.last())))))
        } else {
            t1
        };
        assert(t2 =~= e);
    }
    let mut kept: Vec<InlineNode> = Vec::new();
    let mut all_text = true;
    let ghost f = |n: NodeView| !is_empty_text(n);
    let ghost n = spans.len();
    while spans.len() > 0
        invariant
            spans.len() <= n,
            n == t2.len(),
            node_views(spans@) == t2.skip(n - spans.len()),
            node_views(kept@) == t2.take(n - spans.len()).filter(f),
            f == (|n: NodeView| !is_empty_text(n)),
            all_text == forall|i: int| 0 <= i < kept.len() ==> is_text_node(#[trigger] node_views(kept@)[i]),
        decreases spans.len(),
    {
        let ghost k = n - spans.len();
        let ghost before_s = spans@;
        let ghost before_k = node_views(kept@);
        let node = spans.remove(0);
        proof {
            assert(spans@ =~= before_s.skip(1));
            assert(t2.skip(k)[0] == node_view(node));
            assert forall|j: int| 0 <= j < spans.len() implies node_views(spans@)[j] == t2.skip(k + 1)[j] by {
                assert(node_views(spans@)[j] == node_view(spans@[j]));
                assert(spans@[j] == before_s[j + 1]);
                assert(node_views(before_s)[j + 1] == node_view(before_s[j + 1]));
            }
            assert(node_views(spans@) =~= t2.skip(k + 1));
            assert(t2.take(k + 1) =~= t2.take(k).push(t2[k]));
            t2.take(k).lemma_filter_push(t2[k], f);
        }
        let keep = match &node {
            InlineNode::Text(sp) => !sp.text.as_str().is_empty(),
            _ => true,
        };
        if keep {
            let is_text = match &node {
                InlineNode::Text(_) => true,
                _ => false,
            };
            let ghost was = all_text;
            all_text = all_text && is_text;
            kept.push(node);
            assert(node_views(kept@) =~= before_k.push(node_view(node)));
            proof {
                let kv = node_views(kept@);
                if all_text {
                    assert forall|i: int| 0 <= i < kept.len() implies is_text_node(#[trigger] kv[i]) by {
                        if i < before_k.len() {
                            assert(kv[i] == before_k[i]);
                        }
                    }
                } else if !is_text {
                    assert(!is_text_node(kv[kept.len() - 1]));
                } else {
                    assert(!was);
                    let i = choose|i: int| 0 <= i < before_k.len() && !is_text_node(#[trigger] before_k[i]);
                    assert(kv[i] == before_k[i]);
                }
            }
        }
    }
    proof {
        assert(t2.take(n as int) =~= t2);
    }
    let ghost t = node_views(kept@);
    assert(t == trimmed_nodes(sv));
    if kept.len() == 0 {
        return;
    }
    if !all_text {
        let kind = match heading {
            Some(l) => InlineBlockKind::Heading(l),
            None => InlineBlockKind::Paragraph,
        };
        let ghost before_b = block_views(blocks@);
        blocks.push(ContentBlock::Inline { kind, nodes: kept, classes });
        assert(block_views(blocks@) =~= before_b.push(BlockView::Inline(kind, t, views_of(classes@))));
        return;
    }
    let texts = take_text_spans(&mut kept);
    let ghost before_b = block_views(blocks@);
    match heading {
        Some(level) => {
            blocks.push(ContentBlock::Heading { level, spans: texts, classes });
            assert(block_views(blocks@) =~= before_b.push(BlockView::Heading(level, text_spans(t), views_of(classes@))));
        },
        None => {
            blocks.push(ContentBlock::Paragraph { spans: texts, classes });
            assert(block_views(blocks@) =~= before_b.push(BlockView::Paragraph(text_spans(t), views_of(classes@))));
        },
    }
}

// ---------------------------------------------------------------------------
// The parser's state and its transitions
// ---------------------------------------------------------------------------

/// Everything the XHTML parser tracks while reading a chapter.
#[verifier::ext_equal]
pub struct ParseView {
    pub blocks: Seq<BlockView>,
    pub spans: Seq<NodeView>,
    pub text: Seq<char>,
    pub bold: nat,
    pub italic: nat,
    pub heading: Option<u8>,
    pub in_paragraph: bool,
    pub block_classes: Classes,
    pub span_classes: Classes,
    pub in_script: bool,
    pub in_style: bool,
    pub in_table: bool,
    pub rows: Seq<RowView>,
    pub row: Seq<CellView>,
    pub cell_header: bool,
    pub table_classes: Classes,
    pub row_classes: Classes,
    pub cell_classes: Classes,
    pub in_list: Option<bool>,
    pub items: Seq<ItemView>,
    pub list_classes: Classes,
    pub depth: nat,
    pub item_classes: Classes,
    pub class_stack: Seq<Classes>,
}

pub open spec fn initial_state() -> ParseView {
    ParseView {
        blocks: Seq::empty(),
        spans: Seq::empty(),
        text: Seq::empty(),
        bold: 0,
        italic: 0,
        heading: None,
        in_paragraph: false,
        block_classes: Seq::empty(),
        span_classes: Seq::empty(),
        in_script: false,
        in_style: false,
        in_table: false,
        rows: Seq::empty(),
        row: Seq::empty(),
        cell_header: false,
        table_classes: Seq::empty(),
        row_classes: Seq::empty(),
        cell_classes: Seq::empty(),
        in_list: None,
        items: Seq::empty(),
        list_classes: Seq::empty(),
        depth: 0,
        item_classes: Seq::empty(),
        class_stack: Seq::empty(),
    }
}

/// The pending text becomes a run (when anything is left of it once white
/// space is collapsed), styled by the open bold, italic and span classes.
pub open spec fn flushed(st: ParseView) -> ParseView {
    let c = collapse_ws(st.text);
    ParseView {
        text: Seq::empty(),
        spans: if c.len() > 0 {
            st.spans.push(
                NodeView::Text(
                    SpanView {
                        text: c,
                        bold: st.bold > 0,
                        italic: st.italic > 0,
                        underline: false,
                        strikethrough: false,
                        link: None,
                        classes: st.span_classes,
                    },
                ),
            )
        } else {
            st.spans
        },
        ..st
    }
}

/// The open line closed into a block with `classes` (see `closed_blocks`).
pub open spec fn with_block(st: ParseView, classes: Classes) -> ParseView {
    ParseView {
        blocks: closed_blocks(st.blocks, st.spans, st.heading, classes),
        spans: Seq::empty(),
        ..st
    }
}

/// Pending text flushed and the line closed with the block's classes, which
/// are then cleared.
pub open spec fn ended_block(st: ParseView) -> ParseView {
    let f = flushed(st);
    ParseView { block_classes: Seq::empty(), ..with_block(f, f.block_classes) }
}

pub open spec fn small_class() -> Seq<char> {
    "__folio-small"@
}

pub open spec fn even_class() -> Seq<char> {
    "__folio-even"@
}

/// An `<img>` with a source: inside a heading or paragraph it joins the
/// line; elsewhere the line is closed (keeping the block's classes) and the
/// image becomes a block of its own. Pending text is flushed first.
pub open spec fn image_tag(st: ParseView, src: Seq<char>, alt: Seq<char>, classes: Classes) -> ParseView {
    let f = flushed(st);
    if src.len() == 0 {
        f
    } else if f.heading is Some || f.in_paragraph {
        ParseView { spans: f.spans.push(NodeView::Image(src, alt, classes)), ..f }
    } else {
        let g = with_block(f, f.block_classes);
        ParseView { blocks: g.blocks.push(BlockView::Image(src, alt)), ..g }
    }
}

/// A `<br>`: pending text flushed, and a line break inside a heading or paragraph.
pub open spec fn break_tag(st: ParseView) -> ParseView {
    let f = flushed(st);
    if f.heading is Some || f.in_paragraph {
        ParseView { spans: f.spans.push(NodeView::LineBreak), ..f }
    } else {
        f
    }
}

/// The open row added to the table's rows when it has cells.
pub open spec fn with_row(st: ParseView) -> ParseView {
    if st.row.len() > 0 {
        ParseView {
            rows: st.rows.push(RowView { cells: st.row, classes: st.row_classes }),
            row: Seq::empty(),
            row_classes: Seq::empty(),
            ..st
        }
    } else {
        st
    }
}

/// The open list item added to the list when it holds text runs.
pub open spec fn with_item(st: ParseView) -> ParseView {
    let f = flushed(st);
    let spans = text_spans(f.spans);
    if spans.len() > 0 {
        ParseView {
            items: f.items.push(ItemView { spans, classes: f.item_classes, depth: f.depth }),
            item_classes: Seq::empty(),
            spans: Seq::empty(),
            ..f
        }
    } else {
        ParseView { spans: Seq::empty(), ..f }
    }
}

pub open spec fn is_heading_name(t: Seq<char>) -> Option<u8> {
    if t == "h1"@ {
        Some(1u8)
    } else if t == "h2"@ {
        Some(2u8)
    } else if t == "h3"@ {
        Some(3u8)
    } else if t == "h4"@ {
        Some(4u8)
    } else if t == "h5"@ {
        Some(5u8)
    } else if t == "h6"@ {
        Some(6u8)
    } else {
        None
    }
}

pub open spec fn cell_closed(st: ParseView) -> ParseView {
    let f = flushed(st);
    ParseView {
        row: f.row.push(CellView { text: trim(nodes_text(f.spans)), header: f.cell_header, classes: f.cell_classes }),
        spans: Seq::empty(),
        cell_classes: Seq::empty(),
        in_paragraph: false,
        ..f
    }
}

pub open spec fn row_closed(st: ParseView) -> ParseView {
    with_row(ParseView { text: Seq::empty(), ..st })
}

pub open spec fn table_closed(st: ParseView) -> ParseView {
    let r = row_closed(st);
    if r.rows.len() > 0 {
        ParseView {
            blocks: r.blocks.push(BlockView::Table(r.rows, r.table_classes)),
            rows: Seq::empty(),
            table_classes: Seq::empty(),
            in_table: false,
            ..r
        }
    } else {
        ParseView { in_table: false, ..r }
    }
}

pub open spec fn item_closed(st: ParseView) -> ParseView {
    ParseView { in_paragraph: false, ..with_item(st) }
}

pub open spec fn nested_list_closed(st: ParseView) -> ParseView {
    ParseView {
        text: Seq::empty(),
        depth: (st.depth - 1) as nat,
        class_stack: if st.class_stack.len() > 0 {
            st.class_stack.drop_last()
        } else {
            st.class_stack
        },
        ..st
    }
}

pub open spec fn list_closed(st: ParseView) -> ParseView {
    let ordered = st.in_list->0;
    if st.items.len() > 0 {
        ParseView {
            text: Seq::empty(),
            in_list: None,
            blocks: st.blocks.push(BlockView::List(ordered, st.items, st.list_classes)),
            items: Seq::empty(),
            list_classes: Seq::empty(),
            ..st
        }
    } else {
        ParseView { text: Seq::empty(), in_list: None, ..st }
    }
}

pub open spec fn style_closed(st: ParseView, t: Seq<char>) -> ParseView {
    let f = flushed(st);
    if t == "strong"@ || t == "b"@ {
        ParseView { bold: if f.bold > 0 { (f.bold - 1) as nat } else { 0 }, ..f }
    } else if t == "em"@ || t == "i"@ {
        ParseView { italic: if f.italic > 0 { (f.italic - 1) as nat } else { 0 }, ..f }
    } else if t == "small"@ {
        ParseView { span_classes: f.span_classes.filter(|c: Seq<char>| c != small_class()), ..f }
    } else {
        ParseView { span_classes: Seq::empty(), ..f }
    }
}

pub open spec fn is_style_name(t: Seq<char>) -> bool {
    t == "strong"@ || t == "b"@ || t == "em"@ || t == "i"@ || t == "small"@ || t == "span"@
}

pub open spec fn is_block_name(t: Seq<char>) -> bool {
    t == "p"@ || t == "div"@ || is_heading_name(t) is Some || t == "section"@ || t == "article"@
}

pub open spec fn block_closed(st: ParseView) -> ParseView {
    ParseView { heading: None, in_paragraph: false, ..ended_block(st) }
}

/// What a closing tag (its name lower-cased) does.
pub open spec fn close_tag(st: ParseView, t: Seq<char>) -> ParseView {
    if (t == "td"@ || t == "th"@) && st.in_table {
        cell_closed(st)
    } else if t == "tr"@ && st.in_table {
        row_closed(st)
    } else if t == "table"@ && st.in_table {
        table_closed(st)
    } else if t == "li"@ && st.in_list is Some {
        item_closed(st)
    } else if (t == "ul"@ || t == "ol"@) && st.in_list is Some && st.depth > 0 {
        nested_list_closed(st)
    } else if (t == "ul"@ || t == "ol"@) && st.in_list is Some {
        list_closed(st)
    } else if t == "script"@ {
        ParseView { in_script: false, ..st }
    } else if t == "style"@ || t == "title"@ {
        ParseView { in_style: false, ..st }
    } else if is_style_name(t) {
        style_closed(st, t)
    } else if is_block_name(t) {
        block_closed(st)
    } else {
        st
    }
}

pub open spec fn table_opened(st: ParseView, classes: Classes) -> ParseView {
    ParseView {
        heading: None,
        in_paragraph: false,
        in_table: true,
        table_classes: classes,
        rows: Seq::empty(),
        row: Seq::empty(),
        ..ended_block(st)
    }
}

pub open spec fn row_opened(st: ParseView, classes: Classes) -> ParseView {
    ParseView {
        text: Seq::empty(),
        row: Seq::empty(),
        row_classes: if st.rows.len() % 2 == 1 {
            classes.push(even_class())
        } else {
            classes
        },
        ..st
    }
}

pub open spec fn cell_opened(st: ParseView, header: bool, classes: Classes) -> ParseView {
    ParseView {
        text: Seq::empty(),
        spans: Seq::empty(),
        cell_header: header,
        cell_classes: classes,
        in_paragraph: true,
        ..st
    }
}

pub open spec fn nested_list_opened(st: ParseView, classes: Classes) -> ParseView {
    let w = with_item(st);
    ParseView { depth: w.depth + 1, class_stack: w.class_stack.push(classes), ..w }
}

pub open spec fn list_opened(st: ParseView, ordered: bool, classes: Classes) -> ParseView {
    ParseView {
        heading: None,
        in_paragraph: false,
        in_list: Some(ordered),
        list_classes: classes,
        class_stack: seq![classes],
        depth: 0,
        items: Seq::empty(),
        ..ended_block(st)
    }
}

pub open spec fn item_opened(st: ParseView, classes: Classes) -> ParseView {
    ParseView {
        text: Seq::empty(),
        spans: Seq::empty(),
        item_classes: if st.class_stack.len() > 0 {
            classes + st.class_stack.last()
        } else {
            classes
        },
        in_paragraph: true,
        ..st
    }
}

pub open spec fn style_opened(st: ParseView, t: Seq<char>, classes: Classes) -> ParseView {
    let f = flushed(st);
    if t == "strong"@ || t == "b"@ {
        ParseView { bold: f.bold + 1, ..f }
    } else if t == "em"@ || t == "i"@ {
        ParseView { italic: f.italic + 1, ..f }
    } else if t == "small"@ {
        ParseView {
            span_classes: if f.span_classes.contains(small_class()) {
                f.span_classes
            } else {
                f.span_classes.push(small_class())
            },
            ..f
        }
    } else {
        ParseView { span_classes: classes, ..f }
    }
}

pub open spec fn block_opened(st: ParseView, t: Seq<char>, classes: Classes) -> ParseView {
    let e = ended_block(st);
    if t == "p"@ || t == "div"@ {
        ParseView { block_classes: classes, in_paragraph: true, ..e }
    } else if is_heading_name(t) is Some {
        ParseView { block_classes: classes, heading: is_heading_name(t), ..e }
    } else {
        ParseView { block_classes: classes, ..e }
    }
}

/// What an opening tag (its name lower-cased, with its classes) does.
pub open spec fn open_tag(st: ParseView, t: Seq<char>, classes: Classes) -> ParseView {
    if t == "table"@ {
        table_opened(st, classes)
    } else if (t == "thead"@ || t == "tbody"@) && st.in_table {
        ParseView { text: Seq::empty(), ..st }
    } else if t == "tr"@ && st.in_table {
        row_opened(st, classes)
    } else if (t == "td"@ || t == "th"@) && st.in_table {
        cell_opened(st, t == "th"@, classes)
    } else if (t == "ul"@ || t == "ol"@) && st.in_list is Some {
        nested_list_opened(st, classes)
    } else if t == "ul"@ || t == "ol"@ {
        list_opened(st, t == "ol"@, classes)
    } else if t == "li"@ && st.in_list is Some {
        item_opened(st, classes)
    } else if t == "script"@ {
        ParseView { in_script: true, ..st }
    } else if t == "style"@ || t == "title"@ {
        ParseView { in_style: true, ..st }
    } else if is_style_name(t) {
        style_opened(st, t, classes)
    } else if is_block_name(t) {
        block_opened(st, t, classes)
    } else {
        st
    }
}

// ---------------------------------------------------------------------------
// The parser
// ---------------------------------------------------------------------------

pub fn clone_strings(v: &Vec<String>) -> (r: Vec<String>)
    ensures
        r@ == v@,
{
    let mut r: Vec<String> = Vec::new();
    let mut i: usize = 0;
    while i < v.len()
        invariant
            i <= v.len(),
            r@ == v@.take(i as int),
        decreases v.len() - i,
    {
        r.push(v[i].clone());
        assert(r@ =~= v@.take(i + 1));
        i += 1;
    }
    assert(v@.take(v.len() as int) =~= v@);
    r
}

/// Turns the pending text into a run of the line (see `flushed`).
pub fn flush_text(text_buf: &mut String, spans: &mut Vec<InlineNode>, bold_depth: u32, italic_depth: u32, span_classes: &Vec<String>)
    ensures
        final(text_buf)@ == Seq::<char>::empty(),
        node_views(final(spans)@) == (if collapse_ws(old(text_buf)@).len() > 0 {
            node_views(old(spans)@).push(
                NodeView::Text(
                    SpanView {
                        text: collapse_ws(old(text_buf)@),
                        bold: bold_depth > 0,
                        italic: italic_depth > 0,
                        underline: false,
                        strikethrough: false,
                        link: None,
                        classes: views_of(span_classes@),
                    },
                ),
            )
        } else {
            node_views(old(spans)@)
        }),
{
    let collapsed = collapse_html_whitespace(text_buf.as_str());
    *text_buf = String::new();
    if collapsed.as_str().is_empty() {
        return;
    }
    let ghost before = node_views(spans@);
    let span = StyledSpan {
        text: collapsed,
        bold: bold_depth > 0,
        italic: italic_depth > 0,
        underline: false,
        strikethrough: false,
        link: None,
        classes: clone_strings(span_classes),
    };
    spans.push(InlineNode::Text(span));
    assert(node_views(spans@) =~= before.push(node_view(InlineNode::Text(span))));
}

struct XhtmlParser {
    blocks: Vec<ContentBlock>,
    spans: Vec<InlineNode>,
    text: String,
    bold: u32,
    italic: u32,
    heading: Option<u8>,
    in_paragraph: bool,
    block_classes: Vec<String>,
    span_classes: Vec<String>,
    in_script: bool,
    in_style: bool,
    in_table: bool,
    rows: Vec<TableRow>,
    row: Vec<TableCell>,
    cell_header: bool,
    table_classes: Vec<String>,
    row_classes: Vec<String>,
    cell_classes: Vec<String>,
    in_list: Option<bool>,
    items: Vec<ListItem>,
    list_classes: Vec<String>,
    depth: usize,
    item_classes: Vec<String>,
    class_stack: Vec<Vec<String>>,
}

impl XhtmlParser {
    spec fn pview(&self) -> ParseView {
        ParseView {
            blocks: block_views(self.blocks@),
            spans: node_views(self.spans@),
            text: self.text@,
            bold: self.bold as nat,
            italic: self.italic as nat,
            heading: self.heading,
            in_paragraph: self.in_paragraph,
            block_classes: views_of(self.block_classes@),
            span_classes: views_of(self.span_classes@),
            in_script: self.in_script,
            in_style: self.in_style,
            in_table: self.in_table,
            rows: self.rows@.map_values(|r: TableRow| row_view(r)),
            row: self.row@.map_values(|c: TableCell| cell_view(c)),
            cell_header: self.cell_header,
            table_classes: views_of(self.table_classes@),
            row_classes: views_of(self.row_classes@),
            cell_classes: views_of(self.cell_classes@),
            in_list: self.in_list,
            items: self.items@.map_values(|i: ListItem| item_view(i)),
            list_classes: views_of(self.list_classes@),
            depth: self.depth as nat,
            item_classes: views_of(self.item_classes@),
            class_stack: self.class_stack@.map_values(|c: Vec<String>| views_of(c@)),
        }
    }

    fn new() -> (p: Self)
        ensures
            p.pview() == initial_state(),
    {
        let p = XhtmlParser {
            blocks: Vec::new(),
            spans: Vec::new(),
            text: String::new(),
            bold: 0,
            italic: 0,
            heading: None,
            in_paragraph: false,
            block_classes: Vec::new(),
            span_classes: Vec::new(),
            in_script: false,
            in_style: false,
            in_table: false,
            rows: Vec::new(),
            row: Vec::new(),
            cell_header: false,
            table_classes: Vec::new(),
            row_classes: Vec::new(),
            cell_classes: Vec::new(),
            in_list: None,
            items: Vec::new(),
            list_classes: Vec::new(),
            depth: 0,
            item_classes: Vec::new(),
            class_stack: Vec::new(),
        };
        assert(p.pview() =~= initial_state());
        p
    }

    fn flush(&mut self)
        ensures
            final(self).pview() == flushed(old(self).pview()),
    {
        flush_text(&mut self.text, &mut self.spans, self.bold, self.italic, &self.span_classes);
        assert(self.pview() =~= flushed(old(self).pview()));
    }

    fn close_line(&mut self, classes: Vec<String>)
        ensures
            final(self).pview() == with_block(old(self).pview(), views_of(classes@)),
    {
        push_block(&mut self.blocks, &mut self.spans, self.heading, classes);
        assert(self.pview() =~= with_block(old(self).pview(), views_of(classes@)));
    }

    fn end_block(&mut self)
        ensures
            final(self).pview() == ended_block(old(self).pview()),
    {
        self.flush();
        let mut classes: Vec<String> = Vec::new();
        std::mem::swap(&mut classes, &mut self.block_classes);
        let ghost mid = self.pview();
        self.close_line(classes);
        assert(self.pview() =~= ended_block(old(self).pview()));
    }
}

fn name_is(t: &Vec<char>, name: &str) -> (r: bool)
    ensures
        r == (t@ == name@),
{
    let n = chars_of(name);
    let r = crate::text::range_eq(t, 0, t.len(), &n);
    assert(t@.subrange(0, t@.len() as int) =~= t@);
    r
}

fn take_strings(v: &mut Vec<String>) -> (r: Vec<String>)
    ensures
        r@ == old(v)@,
        final(v)@ == Seq::<String>::empty(),
{
    let mut r: Vec<String> = Vec::new();
    std::mem::swap(&mut r, v);
    r
}

impl XhtmlParser {
    fn close_cell(&mut self)
        ensures
            final(self).pview() == cell_closed(old(self).pview()),
    {
        self.flush();
        let text = inline_nodes_text(self.spans.as_slice());
        let trimmed = crate::text::trim_str(text.as_str());
        self.spans = Vec::new();
        let classes = take_strings(&mut self.cell_classes);
        let ghost before = self.row@.map_values(|c: TableCell| cell_view(c));
        let cell = TableCell { text: trimmed, header: self.cell_header, classes };
        self.row.push(cell);
        assert(self.row@.map_values(|c: TableCell| cell_view(c)) =~= before.push(cell_view(cell)));
        self.in_paragraph = false;
        assert(self.pview() =~= cell_closed(old(self).pview()));
    }

    fn push_row(&mut self)
        ensures
            final(self).pview() == with_row(old(self).pview()),
    {
        if self.row.len() > 0 {
            let cells = {
                let mut c: Vec<TableCell> = Vec::new();
                std::mem::swap(&mut c, &mut self.row);
                c
            };
            let classes = take_strings(&mut self.row_classes);
            let ghost before = self.rows@.map_values(|r: TableRow| row_view(r));
            let row = TableRow { cells, classes };
            self.rows.push(row);
            assert(self.rows@.map_values(|r: TableRow| row_view(r)) =~= before.push(row_view(row)));
            assert(self.row@.map_values(|c: TableCell| cell_view(c)) =~= Seq::<CellView>::empty());
        }
        assert(self.pview() =~= with_row(old(self).pview()));
    }

    fn close_row(&mut self)
        ensures
            final(self).pview() == row_closed(old(self).pview()),
    {
        self.text = String::new();
        self.push_row();
        assert(self.pview() =~= row_closed(old(self).pview()));
    }

    fn close_table(&mut self)
        ensures
            final(self).pview() == table_closed(old(self).pview()),
    {
        self.close_row();
        if self.rows.len() > 0 {
            let rows = {
                let mut r: Vec<TableRow> = Vec::new();
                std::mem::swap(&mut r, &mut self.rows);
                r
            };
            let classes = take_strings(&mut self.table_classes);
            let ghost before = block_views(self.blocks@);
            let b = ContentBlock::Table { rows, classes };
            self.blocks.push(b);
            assert(block_views(self.blocks@) =~= before.push(block_view(b)));
            assert(self.rows@.map_values(|r: TableRow| row_view(r)) =~= Seq::<RowView>::empty());
        }
        self.in_table = false;
        assert(self.pview() =~= table_closed(old(self).pview()));
    }

    fn push_item(&mut self)
        ensures
            final(self).pview() == with_item(old(self).pview()),
    {
        self.flush();
        let spans = take_text_spans(&mut self.spans);
        if spans.len() > 0 {
            let classes = take_strings(&mut self.item_classes);
            let ghost before = self.items@.map_values(|i: ListItem| item_view(i));
            let item = ListItem { spans, classes, depth: self.depth };
            self.items.push(item);
            assert(self.items@.map_values(|i: ListItem| item_view(i)) =~= before.push(item_view(item)));
        }
        assert(node_views(self.spans@) =~= Seq::<NodeView>::empty());
        assert(self.pview() =~= with_item(old(self).pview()));
    }

    fn close_item(&mut self)
        ensures
            final(self).pview() == item_closed(old(self).pview()),
    {
        self.push_item();
        self.in_paragraph = false;
        assert(self.pview() =~= item_closed(old(self).pview()));
    }

    fn close_nested_list(&mut self)
        requires
            old(self).depth > 0,
        ensures
            final(self).pview() == nested_list_closed(old(self).pview()),
    {
        self.text = String::new();
        self.depth = self.depth - 1;
        let ghost before = self.class_stack@;
        if self.class_stack.len() > 0 {
            self.class_stack.pop();
            assert(self.class_stack@ =~= before.drop_last());
            assert(self.class_stack@.map_values(|c: Vec<String>| views_of(c@)) =~= before.map_values(
                |c: Vec<String>| views_of(c@),
            ).drop_last());
        }
        assert(self.pview() =~= nested_list_closed(old(self).pview()));
    }

    fn close_list(&mut self)
        requires
            old(self).in_list is Some,
        ensures
            final(self).pview() == list_closed(old(self).pview()),
    {
        self.text = String::new();
        let ordered = match self.in_list {
            Some(o) => o,
            None => false,
        };
        self.in_list = None;
        if self.items.len() > 0 {
            let items = {
                let mut i: Vec<ListItem> = Vec::new();
                std::mem::swap(&mut i, &mut self.items);
                i
            };
            let classes = take_strings(&mut self.list_classes);
            let ghost before = block_views(self.blocks@);
            let b = ContentBlock::List { ordered, items, classes };
            self.blocks.push(b);
            assert(block_views(self.blocks@) =~= before.push(block_view(b)));
            assert(self.items@.map_values(|i: ListItem| item_view(i)) =~= Seq::<ItemView>::empty());
        }
        assert(self.pview() =~= list_closed(old(self).pview()));
    }

    fn close_style(&mut self, t: &Vec<char>)
        requires
            is_style_name(t@),
        ensures
            final(self).pview() == style_closed(old(self).pview(), t@),
    {
        self.flush();
        if name_is(t, "strong") || name_is(t, "b") {
            if self.bold > 0 {
                self.bold = self.bold - 1;
            }
        } else if name_is(t, "em") || name_is(t, "i") {
            if self.italic > 0 {
                self.italic = self.italic - 1;
            }
        } else if name_is(t, "small") {
            let ghost f = |c: Seq<char>| c != small_class();
            let old_classes = take_strings(&mut self.span_classes);
            let mut kept: Vec<String> = Vec::new();
            let mut i: usize = 0;
            while i < old_classes.len()
                invariant
                    i <= old_classes.len(),
                    views_of(kept@) == views_of(old_classes@).take(i as int).filter(f),
                    f == (|c: Seq<char>| c != small_class()),
                decreases old_classes.len() - i,
            {
                proof {
                    let vs = views_of(old_classes@);
                    assert(vs.take(i + 1) =~= vs.take(i as int).push(vs[i as int]));
                    vs.take(i as int).lemma_filter_push(vs[i as int], f);
                    assert(vs[i as int] == old_classes@[i as int]@);
                }
                let ghost before = views_of(kept@);
                if !crate::text::str_eq(old_classes[i].as_str(), "__folio-small") {
                    kept.push(old_classes[i].clone());
                    assert(views_of(kept@) =~= before.push(old_classes@[i as int]@));
                }
                i += 1;
            }
            assert(views_of(old_classes@).take(old_classes.len() as int) =~= views_of(old_classes@));
            self.span_classes = kept;
        } else {
            self.span_classes = Vec::new();
            assert(views_of(self.span_classes@) =~= Seq::<Seq<char>>::empty());
        }
        assert(self.pview() =~= style_closed(old(self).pview(), t@));
    }

    fn close_block(&mut self)
        ensures
            final(self).pview() == block_closed(old(self).pview()),
    {
        self.end_block();
        self.heading = None;
        self.in_paragraph = false;
        assert(self.pview() =~= block_closed(old(self).pview()));
    }
}

impl XhtmlParser {
    spec fn counters_below(&self, limit: nat) -> bool {
        self.bold < limit && self.italic < limit && self.depth < limit
    }

    fn open_table(&mut self, classes: Vec<String>)
        ensures
            final(self).pview() == table_opened(old(self).pview(), views_of(classes@)),
    {
        self.end_block();
        self.heading = None;
        self.in_paragraph = false;
        self.in_table = true;
        self.table_classes = classes;
        self.rows = Vec::new();
        self.row = Vec::new();
        assert(self.pview() =~= table_opened(old(self).pview(), views_of(classes@)));
    }

    fn open_row(&mut self, classes: Vec<String>)
        ensures
            final(self).pview() == row_opened(old(self).pview(), views_of(classes@)),
    {
        self.text = String::new();
        self.row = Vec::new();
        let mut c = classes;
        if self.rows.len() % 2 == 1 {
            let ghost before = views_of(c@);
            c.push(crate::text::string_from(&chars_of("__folio-even")));
            assert(views_of(c@) =~= before.push(even_class()));
        }
        self.row_classes = c;
        assert(self.pview() =~= row_opened(old(self).pview(), views_of(classes@)));
    }

    fn open_cell(&mut self, header: bool, classes: Vec<String>)
        ensures
            final(self).pview() == cell_opened(old(self).pview(), header, views_of(classes@)),
    {
        self.text = String::new();
        self.spans = Vec::new();
        self.cell_header = header;
        self.cell_classes = classes;
        self.in_paragraph = true;
        assert(self.pview() =~= cell_opened(old(self).pview(), header, views_of(classes@)));
    }

    fn open_nested_list(&mut self, classes: Vec<String>)
        requires
            old(self).depth < usize::MAX,
        ensures
            final(self).pview() == nested_list_opened(old(self).pview(), views_of(classes@)),
    {
        self.push_item();
        self.depth = self.depth + 1;
        let ghost before = self.class_stack@.map_values(|c: Vec<String>| views_of(c@));
        self.class_stack.push(classes);
        assert(self.class_stack@.map_values(|c: Vec<String>| views_of(c@)) =~= before.push(views_of(classes@)));
        assert(self.pview() =~= nested_list_opened(old(self).pview(), views_of(classes@)));
    }

    fn open_list(&mut self, ordered: bool, classes: Vec<String>)
        ensures
            final(self).pview() == list_opened(old(self).pview(), ordered, views_of(classes@)),
    {
        self.end_block();
        self.heading = None;
        self.in_paragraph = false;
        self.in_list = Some(ordered);
        let copy = clone_strings(&classes);
        self.list_classes = classes;
        let mut stack: Vec<Vec<String>> = Vec::new();
        stack.push(copy);
        self.class_stack = stack;
        assert(self.class_stack@.map_values(|c: Vec<String>| views_of(c@)) =~= seq![views_of(classes@)]);
        self.depth = 0;
        self.items = Vec::new();
        assert(self.pview() =~= list_opened(old(self).pview(), ordered, views_of(classes@)));
    }

    fn open_item(&mut self, classes: Vec<String>)
        ensures
            final(self).pview() == item_opened(old(self).pview(), views_of(classes@)),
    {
        self.text = String::new();
        self.spans = Vec::new();
        let mut c = classes;
        let n = self.class_stack.len();
        if n > 0 {
            let ghost base = views_of(c@);
            let ghost top = views_of(self.class_stack@[n - 1]@);
            let mut i: usize = 0;
            while i < self.class_stack[n - 1].len()
                invariant
                    n == self.class_stack.len(),
                    n > 0,
                    top == views_of(self.class_stack@[n - 1]@),
                    i <= self.class_stack@[n - 1].len(),
                    views_of(c@) == base + top.take(i as int),
                decreases self.class_stack@[n - 1].len() - i,
            {
                let ghost before = views_of(c@);
                c.push(self.class_stack[n - 1][i].clone());
                assert(top.take(i + 1) =~= top.take(i as int).push(top[i as int]));
                assert(views_of(c@) =~= before.push(top[i as int]));
                i += 1;
            }
            assert(top.take(top.len() as int) =~= top);
            assert(self.class_stack@.map_values(|c: Vec<String>| views_of(c@)).last() == top);
        }
        self.item_classes = c;
        self.in_paragraph = true;
        assert(self.pview() =~= item_opened(old(self).pview(), views_of(classes@)));
    }

    fn open_style(&mut self, t: &Vec<char>, classes: Vec<String>)
        requires
            is_style_name(t@),
            old(self).bold < u32::MAX,
            old(self).italic < u32::MAX,
        ensures
            final(self).pview() == style_opened(old(self).pview(), t@, views_of(classes@)),
    {
        self.flush();
        if name_is(t, "strong") || name_is(t, "b") {
            self.bold = self.bold + 1;
        } else if name_is(t, "em") || name_is(t, "i") {
            self.italic = self.italic + 1;
        } else if name_is(t, "small") {
            if !crate::text::contains_str(self.span_classes.as_slice(), "__folio-small") {
                let ghost before = views_of(self.span_classes@);
                self.span_classes.push(crate::text::string_from(&chars_of("__folio-small")));
                assert(views_of(self.span_classes@) =~= before.push(small_class()));
            }
            proof {
                let vs = views_of(old(self).span_classes@);
                if vs.contains(small_class()) {
                    let k = choose|k: int| 0 <= k < vs.len() && vs[k] == small_class();
                    assert(crate::text::has_name(vs, small_class()));
                }
                assert(vs =~= crate::text::views_of(old(self).span_classes@));
            }
        } else {
            self.span_classes = classes;
        }
        assert(self.pview() =~= style_opened(old(self).pview(), t@, views_of(classes@)));
    }

    fn open_block(&mut self, t: &Vec<char>, classes: Vec<String>)
        requires
            is_block_name(t@),
        ensures
            final(self).pview() == block_opened(old(self).pview(), t@, views_of(classes@)),
    {
        self.end_block();
        self.block_classes = classes;
        if name_is(t, "p") || name_is(t, "div") {
            self.in_paragraph = true;
        } else {
            let level = heading_level(t);
            if level.is_some() {
                self.heading = level;
            }
        }
        assert(self.pview() =~= block_opened(old(self).pview(), t@, views_of(classes@)));
    }
}

fn heading_level(t: &Vec<char>) -> (r: Option<u8>)
    ensures
        r == is_heading_name(t@),
{
    if name_is(t, "h1") {
        Some(1)
    } else if name_is(t, "h2") {
        Some(2)
    } else if name_is(t, "h3") {
        Some(3)
    } else if name_is(t, "h4") {
        Some(4)
    } else if name_is(t, "h5") {
        Some(5)
    } else if name_is(t, "h6") {
        Some(6)
    } else {
        None
    }
}

fn is_style_tag(t: &Vec<char>) -> (r: bool)
    ensures
        r == is_style_name(t@),
{
    name_is(t, "strong") || name_is(t, "b") || name_is(t, "em") || name_is(t, "i") || name_is(t, "small")
        || name_is(t, "span")
}

fn is_block_tag(t: &Vec<char>) -> (r: bool)
    ensures
        r == is_block_name(t@),
{
    name_is(t, "p") || name_is(t, "div") || heading_level(t).is_some() || name_is(t, "section") || name_is(
        t,
        "article",
    )
}

impl XhtmlParser {
    #[verifier::rlimit(40)]
    fn close(&mut self, t: &Vec<char>)
        ensures
            final(self).pview() == close_tag(old(self).pview(), t@),
    {
        let cell = name_is(t, "td") || name_is(t, "th");
        let list_end = name_is(t, "ul") || name_is(t, "ol");
        if cell && self.in_table {
            self.close_cell();
        } else if name_is(t, "tr") && self.in_table {
            self.close_row();
        } else if name_is(t, "table") && self.in_table {
            self.close_table();
        } else if name_is(t, "li") && self.in_list.is_some() {
            self.close_item();
        } else if list_end && self.in_list.is_some() && self.depth > 0 {
            self.close_nested_list();
        } else if list_end && self.in_list.is_some() {
            self.close_list();
        } else if name_is(t, "script") {
            self.in_script = false;
            assert(self.pview() =~= close_tag(old(self).pview(), t@));
        } else if name_is(t, "style") || name_is(t, "title") {
            self.in_style = false;
            assert(self.pview() =~= close_tag(old(self).pview(), t@));
        } else if is_style_tag(t) {
            self.close_style(t);
        } else if is_block_tag(t) {
            self.close_block();
        }
    }

    #[verifier::rlimit(40)]
    fn open(&mut self, t: &Vec<char>, classes: Vec<String>)
        requires
            old(self).bold < u32::MAX,
            old(self).italic < u32::MAX,
            old(self).depth < usize::MAX,
        ensures
            final(self).pview() == open_tag(old(self).pview(), t@, views_of(classes@)),
    {
        let cell = name_is(t, "td") || name_is(t, "th");
        let list = name_is(t, "ul") || name_is(t, "ol");
        if name_is(t, "table") {
            self.open_table(classes);
        } else if (name_is(t, "thead") || name_is(t, "tbody")) && self.in_table {
            self.text = String::new();
            assert(self.pview() =~= open_tag(old(self).pview(), t@, views_of(classes@)));
        } else if name_is(t, "tr") && self.in_table {
            self.open_row(classes);
        } else if cell && self.in_table {
            let header = name_is(t, "th");
            self.open_cell(header, classes);
        } else if list && self.in_list.is_some() {
            self.open_nested_list(classes);
        } else if list {
            let ordered = name_is(t, "ol");
            self.open_list(ordered, classes);
        } else if name_is(t, "li") && self.in_list.is_some() {
            self.open_item(classes);
        } else if name_is(t, "script") {
            self.in_script = true;
            assert(self.pview() =~= open_tag(old(self).pview(), t@, views_of(classes@)));
        } else if name_is(t, "style") || name_is(t, "title") {
            self.in_style = true;
            assert(self.pview() =~= open_tag(old(self).pview(), t@, views_of(classes@)));
        } else if is_style_tag(t) {
            self.open_style(t, classes);
        } else if is_block_tag(t) {
            self.open_block(t, classes);
        }
    }

    fn image(&mut self, src: String, alt: String, classes: Vec<String>)
        ensures
            final(self).pview() == image_tag(old(self).pview(), src@, alt@, views_of(classes@)),
    {
        self.flush();
        if src.as_str().is_empty() {
            return;
        }
        if self.heading.is_some() || self.in_paragraph {
            let ghost before = node_views(self.spans@);
            let node = InlineNode::Image { src, alt, classes };
            self.spans.push(node);
            assert(node_views(self.spans@) =~= before.push(node_view(node)));
        } else {
            let kept = clone_strings(&self.block_classes);
            self.close_line(kept);
            let ghost before = block_views(self.blocks@);
            let b = ContentBlock::Image { src, alt };
            self.blocks.push(b);
            assert(block_views(self.blocks@) =~= before.push(block_view(b)));
        }
        assert(self.pview() =~= image_tag(old(self).pview(), src@, alt@, views_of(classes@)));
    }

    fn line_break(&mut self)
        ensures
            final(self).pview() == break_tag(old(self).pview()),
    {
        self.flush();
        if self.heading.is_some() || self.in_paragraph {
            let ghost before = node_views(self.spans@);
            self.spans.push(InlineNode::LineBreak);
            assert(node_views(self.spans@) =~= before.push(NodeView::LineBreak));
        }
        assert(self.pview() =~= break_tag(old(self).pview()));
    }
}

// ---------------------------------------------------------------------------
// Reading a chapter
// ---------------------------------------------------------------------------

/// End of a tag name: the first space, `>`, `/` or line feed.
pub open spec fn tag_name_end(v: Seq<char>, i: int) -> int
    decreases v.len() - i,
{
    if i < 0 || i >= v.len() || v[i] == ' ' || v[i] == '>' || v[i] == '/' || v[i] == '\n' {
        i
    } else {
        tag_name_end(v, i + 1)
    }
}

/// First position at or after `i` holding `c`, or the end.
pub open spec fn char_end(v: Seq<char>, i: int, c: char) -> int
    decreases v.len() - i,
{
    if i < 0 || i >= v.len() || v[i] == c {
        i
    } else {
        char_end(v, i + 1, c)
    }
}

/// Just past the `>` at or after `i` (the end when there is none).
pub open spec fn after_gt(v: Seq<char>, i: int) -> int {
    let g = char_end(v, i, '>');
    if g < v.len() {
        g + 1
    } else {
        g
    }
}

pub proof fn lemma_char_scans(v: Seq<char>, i: int, c: char)
    requires
        0 <= i <= v.len(),
    ensures
        i <= tag_name_end(v, i) <= v.len(),
        i <= char_end(v, i, c) <= v.len(),
        i < v.len() && v[i] != c ==> i < char_end(v, i, c),
    decreases v.len() - i,
{
    if i < v.len() {
        lemma_char_scans(v, i + 1, c);
    }
}

/// A run of text with its character references decoded.
pub open spec fn decoded_text(t: Seq<char>) -> Seq<char> {
    replace_each(decode_numeric(t), named_references())
}

/// One step of the reader at `pos`: a tag (its name lower-cased, its
/// classes, for `<img>` its source and alternative text), or the text up to
/// the next tag, which is decoded and added to the pending text unless inside
/// a script or style. Returns the new state and where reading resumes.
pub open spec fn parse_step(v: Seq<char>, pos: int, st: ParseView) -> (ParseView, int) {
    if v[pos] == '<' {
        let p1 = pos + 1;
        let closing = v[p1] == '/';
        let ts = if closing {
            p1 + 1
        } else {
            p1
        };
        let te = tag_name_end(v, ts);
        let t = crate::text::lowercase(v.subrange(ts, te));
        let classes = if closing {
            Seq::empty()
        } else {
            crate::markup::class_attribute_from(v, te)
        };
        let next = after_gt(v, te);
        if !closing && t == "img"@ {
            let a = crate::markup::img_attributes_from(v, te, seq![], seq![]);
            (image_tag(st, a.0, a.1, classes), next)
        } else if !closing && t == "br"@ {
            (break_tag(st), next)
        } else if closing {
            (close_tag(st, t), next)
        } else {
            (open_tag(st, t, classes), next)
        }
    } else {
        let p = char_end(v, pos, '<');
        if st.in_script || st.in_style {
            (st, p)
        } else {
            (ParseView { text: st.text + decoded_text(v.subrange(pos, p)), ..st }, p)
        }
    }
}

pub proof fn lemma_parse_step_advances(v: Seq<char>, pos: int, st: ParseView)
    requires
        0 <= pos < v.len(),
        v[pos] == '<' ==> pos + 1 < v.len(),
    ensures
        pos < parse_step(v, pos, st).1 <= v.len(),
{
    if v[pos] == '<' {
        let p1 = pos + 1;
        let ts = if v[p1] == '/' {
            p1 + 1
        } else {
            p1
        };
        lemma_char_scans(v, ts, '>');
        let te = tag_name_end(v, ts);
        lemma_char_scans(v, te, '>');
    } else {
        lemma_char_scans(v, pos, '<');
    }
}

/// How many steps the reader takes at most.
pub const MAX_ITERATIONS: u64 = 10_000_000;

/// The state after reading from `pos` with `iterations` steps already taken:
/// reading stops at the end, after `MAX_ITERATIONS` steps, or at a `<` that
/// ends the text.
pub open spec fn parse_run(v: Seq<char>, pos: int, st: ParseView, iterations: nat) -> ParseView
    decreases v.len() - pos,
{
    if pos < 0 || pos >= v.len() || iterations >= MAX_ITERATIONS {
        st
    } else if v[pos] == '<' && pos + 1 >= v.len() {
        st
    } else {
        let (st2, p2) = parse_step(v, pos, st);
        proof {
            lemma_parse_step_advances(v, pos, st);
        }
        parse_run(v, p2, st2, iterations + 1)
    }
}

pub open spec fn separator() -> Seq<char> {
    "\n---\n"@
}

/// A chapter with each horizontal rule (`<hr/>`, `<hr />`, `<hr>`) written
/// as a line holding `---`.
pub open spec fn rules_as_text(html: Seq<char>) -> Seq<char> {
    crate::text::replace_all(
        crate::text::replace_all(crate::text::replace_all(html, "<hr/>"@, separator()), "<hr />"@, separator()),
        "<hr>"@,
        separator(),
    )
}

/// The blocks of a chapter: the text read step by step (see `parse_step`),
/// then the pending text flushed and the last line closed.
pub open spec fn xhtml_blocks(html: Seq<char>) -> Seq<BlockView> {
    ended_block(parse_run(rules_as_text(html), 0, initial_state(), 0)).blocks
}

pub proof fn lemma_step_counters(v: Seq<char>, pos: int, st: ParseView)
    requires
        0 <= pos < v.len(),
        v[pos] == '<' ==> pos + 1 < v.len(),
    ensures
        parse_step(v, pos, st).0.bold <= st.bold + 1,
        parse_step(v, pos, st).0.italic <= st.italic + 1,
        parse_step(v, pos, st).0.depth <= st.depth + 1,
{
}

// ---------------------------------------------------------------------------
// Every run the parser hands out is collapsed text with something in it
// ---------------------------------------------------------------------------

/// A text run as the parser hands it out: not empty, its white space collapsed.
pub open spec fn clean_run(s: SpanView) -> bool {
    s.text.len() > 0 && collapsed(s.text)
}

pub open spec fn clean_runs(s: Seq<SpanView>) -> bool {
    forall|i: int| 0 <= i < s.len() ==> clean_run(#[trigger] s[i])
}

pub open spec fn clean_node(n: NodeView) -> bool {
    match n {
        NodeView::Text(s) => clean_run(s),
        _ => true,
    }
}

pub open spec fn clean_nodes(s: Seq<NodeView>) -> bool {
    forall|i: int| 0 <= i < s.len() ==> clean_node(#[trigger] s[i])
}

pub open spec fn clean_items(s: Seq<ItemView>) -> bool {
    forall|i: int| 0 <= i < s.len() ==> clean_runs(#[trigger] s[i].spans)
}

/// The runs of a heading, a paragraph, a line with breaks or images, and of
/// each list item are clean.
pub open spec fn clean_block(b: BlockView) -> bool {
    match b {
        BlockView::Heading(_, spans, _) => clean_runs(spans),
        BlockView::Paragraph(spans, _) => clean_runs(spans),
        BlockView::Inline(_, nodes, _) => clean_nodes(nodes),
        BlockView::List(_, items, _) => clean_items(items),
        _ => true,
    }
}

pub open spec fn clean_blocks(s: Seq<BlockView>) -> bool {
    forall|i: int| 0 <= i < s.len() ==> clean_block(#[trigger] s[i])
}

pub open spec fn clean_state(st: ParseView) -> bool {
    clean_blocks(st.blocks) && clean_nodes(st.spans) && clean_items(st.items)
}

/// A node whose text, if it has any, is collapsed.
spec fn collapsed_node(n: NodeView) -> bool {
    collapsed(node_text(n))
}

proof fn lemma_text_spans_clean(ns: Seq<NodeView>)
    requires
        clean_nodes(ns),
    ensures
        clean_runs(text_spans(ns)),
    decreases ns.len(),
{
    if ns.len() > 0 {
        let dl = ns.drop_last();
        assert forall|i: int| 0 <= i < dl.len() implies clean_node(#[trigger] dl[i]) by {
            assert(dl[i] == ns[i]);
        }
        lemma_text_spans_clean(dl);
        assert(clean_node(ns[ns.len() - 1]));
        let t = text_spans(ns);
        let a = text_spans(dl);
        assert forall|i: int| 0 <= i < t.len() implies clean_run(#[trigger] t[i]) by {
            if i < a.len() {
                assert(t[i] == a[i]);
            }
        }
    }
}

proof fn lemma_edge_collapsed(n: NodeView, start: bool)
    requires
        collapsed_node(n),
    ensures
        collapsed_node(
            with_text(
                n,
                edge_text(n, if start { trim_start(node_text(n)) } else { trim_end(node_text(n)) }),
            ),
        ),
{
    let t = node_text(n);
    crate::text::lemma_leading_ws_bound(t);
    crate::text::lemma_trailing_ws_bound(t);
    if start {
        lemma_collapsed_subrange(t, crate::text::leading_ws(t) as int, t.len() as int);
        assert(trim_start(t) =~= t.subrange(crate::text::leading_ws(t) as int, t.len() as int));
    } else {
        lemma_collapsed_subrange(t, 0, t.len() - crate::text::trailing_ws(t));
        assert(trim_end(t) =~= t.subrange(0, t.len() - crate::text::trailing_ws(t)));
    }
}

proof fn lemma_drop_empty_runs(s: Seq<NodeView>)
    requires
        forall|i: int| 0 <= i < s.len() ==> collapsed_node(#[trigger] s[i]),
    ensures
        clean_nodes(s.filter(|n: NodeView| !is_empty_text(n))),
    decreases s.len(),
{
    reveal(Seq::filter);
    if s.len() > 0 {
        let dl = s.drop_last();
        assert forall|i: int| 0 <= i < dl.len() implies collapsed_node(#[trigger] dl[i]) by {
            assert(dl[i] == s[i]);
        }
        lemma_drop_empty_runs(dl);
        assert(collapsed_node(s[s.len() - 1]));
    }
}

proof fn lemma_trimmed_clean(spans: Seq<NodeView>)
    requires
        clean_nodes(spans),
    ensures
        clean_nodes(trimmed_nodes(spans)),
{
    let t1 = if spans.len() > 0 && is_text_node(spans[0]) {
        spans.update(0, with_text(spans[0], edge_text(spans[0], trim_start(node_text(spans[0])))))
    } else {
        spans
    };
    if spans.len() > 0 {
        assert(clean_node(spans[0]));
        lemma_edge_collapsed(spans[0], true);
    }
    assert forall|i: int| 0 <= i < t1.len() implies collapsed_node(#[trigger] t1[i]) by {
        assert(clean_node(spans[i]));
    }
    let t2 = if t1.len() > 0 && is_text_node(t1.last()) {
        t1.update(t1.len() - 1, with_text(t1.last(), edge_text(t1.last(), trim_end(node_text(t1.last())))))
    } else {
        t1
    };
    if t1.len() > 0 {
        assert(collapsed_node(t1[t1.len() - 1]));
        lemma_edge_collapsed(t1.last(), false);
    }
    assert forall|i: int| 0 <= i < t2.len() implies collapsed_node(#[trigger] t2[i]) by {
        assert(collapsed_node(t1[i]));
    }
    lemma_drop_empty_runs(t2);
}

proof fn lemma_closed_blocks_clean(blocks: Seq<BlockView>, spans: Seq<NodeView>, heading: Option<u8>, classes: Classes)
    requires
        clean_blocks(blocks),
        clean_nodes(spans),
    ensures
        clean_blocks(closed_blocks(blocks, spans, heading, classes)),
{
    lemma_trimmed_clean(spans);
    lemma_text_spans_clean(trimmed_nodes(spans));
    let r = closed_blocks(blocks, spans, heading, classes);
    assert forall|i: int| 0 <= i < r.len() implies clean_block(#[trigger] r[i]) by {
        if i < blocks.len() {
            assert(r[i] == blocks[i]);
        }
    }
}

proof fn lemma_flushed_clean(st: ParseView)
    requires
        clean_state(st),
    ensures
        clean_state(flushed(st)),
{
    lemma_collapse_ws_collapsed(st.text);
    let f = flushed(st);
    assert forall|i: int| 0 <= i < f.spans.len() implies clean_node(#[trigger] f.spans[i]) by {
        if i < st.spans.len() {
            assert(f.spans[i] == st.spans[i]);
        }
    }
}

proof fn lemma_with_block_clean(st: ParseView, classes: Classes)
    requires
        clean_state(st),
    ensures
        clean_state(with_block(st, classes)),
{
    lemma_closed_blocks_clean(st.blocks, st.spans, st.heading, classes);
}

proof fn lemma_ended_block_clean(st: ParseView)
    requires
        clean_state(st),
    ensures
        clean_state(ended_block(st)),
{
    lemma_flushed_clean(st);
    lemma_with_block_clean(flushed(st), flushed(st).block_classes);
}

proof fn lemma_with_item_clean(st: ParseView)
    requires
        clean_state(st),
    ensures
        clean_state(with_item(st)),
{
    lemma_flushed_clean(st);
    let f = flushed(st);
    lemma_text_spans_clean(f.spans);
    let w = with_item(st);
    assert forall|i: int| 0 <= i < w.items.len() implies clean_runs(#[trigger] w.items[i].spans) by {
        if i < f.items.len() {
            assert(w.items[i] == f.items[i]);
        }
    }
}

proof fn lemma_push_block_clean(blocks: Seq<BlockView>, b: BlockView)
    requires
        clean_blocks(blocks),
        clean_block(b),
    ensures
        clean_blocks(blocks.push(b)),
{
    assert forall|i: int| 0 <= i < blocks.push(b).len() implies clean_block(#[trigger] blocks.push(b)[i]) by {
        if i < blocks.len() {
            assert(blocks.push(b)[i] == blocks[i]);
        }
    }
}

proof fn lemma_push_node_clean(spans: Seq<NodeView>, n: NodeView)
    requires
        clean_nodes(spans),
        clean_node(n),
    ensures
        clean_nodes(spans.push(n)),
{
    assert forall|i: int| 0 <= i < spans.push(n).len() implies clean_node(#[trigger] spans.push(n)[i]) by {
        if i < spans.len() {
            assert(spans.push(n)[i] == spans[i]);
        }
    }
}

proof fn lemma_close_tag_clean(st: ParseView, t: Seq<char>)
    requires
        clean_state(st),
    ensures
        clean_state(close_tag(st, t)),
{
    lemma_flushed_clean(st);
    lemma_ended_block_clean(st);
    lemma_with_item_clean(st);
    let r = row_closed(st);
    if r.rows.len() > 0 {
        lemma_push_block_clean(r.blocks, BlockView::Table(r.rows, r.table_classes));
    }
    if st.items.len() > 0 {
        lemma_push_block_clean(st.blocks, BlockView::List(st.in_list->0, st.items, st.list_classes));
    }
}

proof fn lemma_open_tag_clean(st: ParseView, t: Seq<char>, classes: Classes)
    requires
        clean_state(st),
    ensures
        clean_state(open_tag(st, t, classes)),
{
    lemma_flushed_clean(st);
    lemma_ended_block_clean(st);
    lemma_with_item_clean(st);
}

proof fn lemma_step_clean(v: Seq<char>, pos: int, st: ParseView)
    requires
        0 <= pos < v.len(),
        v[pos] == '<' ==> pos + 1 < v.len(),
        clean_state(st),
    ensures
        clean_state(parse_step(v, pos, st).0),
{
    if v[pos] == '<' {
        let p1 = pos + 1;
        let closing = v[p1] == '/';
        let ts = if closing { p1 + 1 } else { p1 };
        let te = tag_name_end(v, ts);
        let t = crate::text::lowercase(v.subrange(ts, te));
        let classes = if closing { Seq::empty() } else { crate::markup::class_attribute_from(v, te) };
        if !closing && t == "img"@ {
            let a = crate::markup::img_attributes_from(v, te, seq![], seq![]);
            lemma_flushed_clean(st);
            let f = flushed(st);
            if a.0.len() > 0 {
                if f.heading is Some || f.in_paragraph {
                    lemma_push_node_clean(f.spans, NodeView::Image(a.0, a.1, classes));
                } else {
                    lemma_with_block_clean(f, f.block_classes);
                    let g = with_block(f, f.block_classes);
                    lemma_push_block_clean(g.blocks, BlockView::Image(a.0, a.1));
                }
            }
        } else if !closing && t == "br"@ {
            lemma_flushed_clean(st);
            lemma_push_node_clean(flushed(st).spans, NodeView::LineBreak);
        } else if closing {
            lemma_close_tag_clean(st, t);
        } else {
            lemma_open_tag_clean(st, t, classes);
        }
    }
}

proof fn lemma_run_clean(v: Seq<char>, pos: int, st: ParseView, iterations: nat)
    requires
        clean_state(st),
    ensures
        clean_state(parse_run(v, pos, st, iterations)),
    decreases v.len() - pos,
{
    if pos < 0 || pos >= v.len() || iterations >= MAX_ITERATIONS {
    } else if v[pos] == '<' && pos + 1 >= v.len() {
    } else {
        lemma_parse_step_advances(v, pos, st);
        lemma_step_clean(v, pos, st);
        let (st2, p2) = parse_step(v, pos, st);
        lemma_run_clean(v, p2, st2, iterations + 1);
    }
}

/// Every text run of a parsed chapter (of its headings, paragraphs, lines
/// with breaks or images, and list items) has something in it, and its
/// white space is collapsed: only plain spaces, never two side by side.
pub proof fn law_parsed_runs_are_collapsed(html: Seq<char>)
    ensures
        clean_blocks(xhtml_blocks(html)),
{
    let st = parse_run(rules_as_text(html), 0, initial_state(), 0);
    lemma_run_clean(rules_as_text(html), 0, initial_state(), 0);
    lemma_ended_block_clean(st);
}

impl XhtmlParser {
    /// One tag starting at `pos` (a `<` that is not the last character).
    #[verifier::rlimit(40)]
    fn read_tag(&mut self, v: &Vec<char>, pos: usize) -> (next: usize)
        requires
            pos + 1 < v.len(),
            v@[pos as int] == '<',
            old(self).bold < u32::MAX,
            old(self).italic < u32::MAX,
            old(self).depth < usize::MAX,
        ensures
            (final(self).pview(), next as int) == parse_step(v@, pos as int, old(self).pview()),
    {
        let p1 = pos + 1;
        let closing = v[p1] == '/';
        let ts = if closing {
            p1 + 1
        } else {
            p1
        };
        let mut te = ts;
        while te < v.len() && v[te] != ' ' && v[te] != '>' && v[te] != '/' && v[te] != '\n'
            invariant
                ts <= te <= v.len(),
                tag_name_end(v@, ts as int) == tag_name_end(v@, te as int),
            decreases v.len() - te,
        {
            te += 1;
        }
        let name = crate::text::string_from_range(v, ts, te);
        let lower = crate::text::to_lowercase(name.as_str());
        let t = chars_of(lower.as_str());
        let classes = if closing {
            Vec::new()
        } else {
            crate::markup::class_attr_at(v, te)
        };
        assert(views_of(classes@) == (if closing {
            Seq::<Seq<char>>::empty()
        } else {
            crate::markup::class_attribute_from(v@, te as int)
        }));
        let mut g = te;
        while g < v.len() && v[g] != '>'
            invariant
                te <= g <= v.len(),
                char_end(v@, te as int, '>') == char_end(v@, g as int, '>'),
            decreases v.len() - g,
        {
            g += 1;
        }
        let next = if g < v.len() {
            g + 1
        } else {
            g
        };
        if !closing && name_is(&t, "img") {
            let (src, alt) = crate::markup::img_attributes_at(v, te);
            self.image(src, alt, classes);
        } else if !closing && name_is(&t, "br") {
            self.line_break();
        } else if closing {
            self.close(&t);
        } else {
            self.open(&t, classes);
        }
        next
    }

    /// The text starting at `pos` (not a `<`) up to the next tag.
    fn read_text(&mut self, v: &Vec<char>, pos: usize) -> (next: usize)
        requires
            pos < v.len(),
            v@[pos as int] != '<',
        ensures
            (final(self).pview(), next as int) == parse_step(v@, pos as int, old(self).pview()),
    {
        let mut e = pos;
        while e < v.len() && v[e] != '<'
            invariant
                pos <= e <= v.len(),
                char_end(v@, pos as int, '<') == char_end(v@, e as int, '<'),
            decreases v.len() - e,
        {
            e += 1;
        }
        if !(self.in_script || self.in_style) {
            let text = crate::text::string_from_range(v, pos, e);
            let decoded = decode_entities(text.as_str());
            push_str(&mut self.text, decoded.as_str());
            assert(self.pview() =~= ParseView { text: old(self).pview().text + decoded_text(v@.subrange(pos as int, e as int)), ..old(self).pview() });
        }
        e
    }
}

/// The blocks of a chapter's XHTML; see `xhtml_blocks`.
pub fn parse_xhtml(html: &str) -> (r: Vec<ContentBlock>)
    ensures
        block_views(r@) == xhtml_blocks(html@),
{
    let sep = chars_of("\n---\n");
    let h0 = chars_of(html);
    let r1 = chars_of("<hr/>");
    let r2 = chars_of("<hr />");
    let r3 = chars_of("<hr>");
    proof {
        reveal_strlit("<hr/>");
        reveal_strlit("<hr />");
        reveal_strlit("<hr>");
    }
    let h1 = crate::entities::replace_all_exec(&h0, &r1, &sep);
    let h2 = crate::entities::replace_all_exec(&h1, &r2, &sep);
    let v = crate::entities::replace_all_exec(&h2, &r3, &sep);
    assert(v@ == rules_as_text(html@));
    let mut p = XhtmlParser::new();
    let mut pos: usize = 0;
    let mut iterations: u64 = 0;
    let mut done = false;
    while pos < v.len() && !done
        invariant
            pos <= v.len(),
            iterations <= MAX_ITERATIONS,
            p.bold <= iterations,
            p.italic <= iterations,
            p.depth <= iterations,
            parse_run(v@, pos as int, p.pview(), iterations as nat) == parse_run(v@, 0, initial_state(), 0),
            done ==> parse_run(v@, pos as int, p.pview(), iterations as nat) == p.pview(),
        decreases v.len() - pos + (if done { 0int } else { 1int }),
    {
        if iterations >= MAX_ITERATIONS {
            done = true;
        } else if v[pos] == '<' && pos + 1 >= v.len() {
            done = true;
        } else {
            proof {
                lemma_parse_step_advances(v@, pos as int, p.pview());
                lemma_step_counters(v@, pos as int, p.pview());
            }
            let next = if v[pos] == '<' {
                p.read_tag(&v, pos)
            } else {
                p.read_text(&v, pos)
            };
            pos = next;
            iterations = iterations + 1;
        }
    }
    p.end_block();
    p.blocks
}

/// A chapter's blocks together with its style rules: the rules of its
/// `<style>` elements, then one rule per inline `style` attribute, whose
/// element is given a generated class that the rule selects.
pub fn parse_xhtml_with_css(html: &str) -> (r: (Vec<ContentBlock>, Vec<CssRule>))
    ensures
        block_views(r.0@) == xhtml_blocks(crate::markup::inline_styles_from(html@, 0, 0).0),
        crate::css::rule_views(r.1@) == crate::markup::embedded_css_from(html@, 0) + crate::markup::inline_styles_from(
            html@,
            0,
            0,
        ).1,
{
    let mut rules = crate::markup::extract_embedded_css(html);
    let (prepared, mut inline_rules) = crate::markup::inject_inline_style_classes(html);
    let ghost before = crate::css::rule_views(rules@);
    let ghost added = crate::css::rule_views(inline_rules@);
    rules.append(&mut inline_rules);
    assert(crate::css::rule_views(rules@) =~= before + added);
    (parse_xhtml(prepared.as_str()), rules)
}

/// The text of a heading: its runs joined by single spaces.
pub open spec fn heading_text(spans: Seq<SpanView>) -> Seq<char> {
    crate::text::join(spans.map_values(|s: SpanView| s.text), seq![' '])
}

/// The title of a chapter: the text of its first heading that has any.
pub open spec fn first_heading(blocks: Seq<BlockView>) -> Seq<char>
    decreases blocks.len(),
{
    if blocks.len() == 0 {
        Seq::empty()
    } else {
        match blocks[0] {
            BlockView::Heading(_, spans, _) => if heading_text(spans).len() > 0 {
                heading_text(spans)
            } else {
                first_heading(blocks.skip(1))
            },
            _ => first_heading(blocks.skip(1)),
        }
    }
}

fn join_span_texts(spans: &Vec<StyledSpan>) -> (r: String)
    ensures
        r@ == heading_text(span_views(spans@)),
{
    let mut r = String::new();
    let mut i: usize = 0;
    let ghost ts = span_views(spans@).map_values(|s: SpanView| s.text);
    while i < spans.len()
        invariant
            i <= spans.len(),
            ts == span_views(spans@).map_values(|s: SpanView| s.text),
            r@ == crate::text::join(ts.take(i as int), seq![' ']),
        decreases spans.len() - i,
    {
        if i > 0 {
            crate::text::push_char(&mut r, ' ');
        }
        push_str(&mut r, spans[i].text.as_str());
        proof {
            let q = ts.take(i + 1);
            assert(q.drop_last() =~= ts.take(i as int));
            assert(q.last() == spans@[i as int].text@);
            if i == 0 {
                assert(q.len() == 1);
                assert(r@ =~= q[0]);
            } else {
                assert(r@ =~= crate::text::join(q.drop_last(), seq![' ']) + seq![' '] + q.last());
            }
        }
        i += 1;
    }
    assert(ts.take(spans.len() as int) =~= ts);
    r
}

pub fn extract_heading(blocks: &[ContentBlock]) -> (r: String)
    ensures
        r@ == first_heading(block_views(blocks@)),
{
    let ghost bv = block_views(blocks@);
    let mut i: usize = 0;
    assert(bv.skip(0) =~= bv);
    while i < blocks.len()
        invariant
            i <= blocks.len(),
            bv == block_views(blocks@),
            first_heading(bv) == first_heading(bv.skip(i as int)),
        decreases blocks.len() - i,
    {
        let ghost rest = bv.skip(i as int);
        assert(rest[0] == block_view(blocks@[i as int]));
        assert(rest.skip(1) =~= bv.skip(i + 1));
        if let ContentBlock::Heading { spans, .. } = &blocks[i] {
            let text = join_span_texts(spans);
            if !text.as_str().is_empty() {
                return text;
            }
        }
        i += 1;
    }
    assert(bv.skip(blocks.len() as int) =~= Seq::<BlockView>::empty());
    String::new()
}

} // verus!
