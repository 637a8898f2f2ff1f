//! Markdown rendering: extraction of the first top-level level-1 heading as
//! the document title, reference-relative rewriting of hyperlink targets,
//! and serialization to HTML.
//!
//! Parsing and serialization are comrak's work and stand behind trusted
//! wrappers; everything between them — which heading becomes the title, what
//! its text is, which link targets change and to what — is verified. Title
//! extraction reads only the document's direct children, as the page design
//! asks; link rewriting deliberately walks the whole tree, so that links
//! inside paragraphs, lists and block quotes are rewritten too.

use vstd::prelude::*;
use crate::paths::rewrite_url;
use crate::paths::rewrite_link_target;

verus! {

/// One inline piece of a heading, as title text sees it: literal text (plain
/// text or inline code), a line break, or an inline kind without literal
/// content.
pub enum TitlePiece {
    Lit(String),
    Brk,
    Skip,
}

/// The view of a title piece.
pub enum TitlePieceView {
    Lit(Seq<char>),
    Brk,
    Skip,
}

impl View for TitlePiece {
    type V = TitlePieceView;

    open spec fn view(&self) -> TitlePieceView {
        match self {
            TitlePiece::Lit(s) => TitlePieceView::Lit(s@),
            TitlePiece::Brk => TitlePieceView::Brk,
            TitlePiece::Skip => TitlePieceView::Skip,
        }
    }
}

/// One direct child of the parsed document's root, reduced to what title
/// extraction reads: a heading with its level and inline pieces, or any
/// other block.
pub enum TopNode {
    Heading { level: u8, pieces: Vec<TitlePiece> },
    Other,
}

/// The view of a top-level node.
pub enum TopNodeView {
    Heading { level: u8, pieces: Seq<TitlePieceView> },
    Other,
}

impl View for TopNode {
    type V = TopNodeView;

    open spec fn view(&self) -> TopNodeView {
        match self {
            TopNode::Heading { level, pieces } => TopNodeView::Heading {
                level: *level,
                pieces: pieces@.map_values(|p: TitlePiece| p@),
            },
            TopNode::Other => TopNodeView::Other,
        }
    }
}

/// The top-level nodes that parsing the source yields. Parsing is
/// deterministic: the same source always parses to the same document.
pub uninterp spec fn md_tops(src: Seq<char>) -> Seq<TopNodeView>;

/// The targets of the parsed document's hyperlinks, in document order.
pub uninterp spec fn md_links(src: Seq<char>) -> Seq<Seq<char>>;

/// The HTML that serializing the parsed source yields after the edits: each
/// hyperlink's target replaced by the same-position entry of `urls`
/// (document order, as `md_links` lists them), and then the top-level node
/// at `removed`, if any, detached. Parsing and serialization are
/// deterministic, so the output is a function of these three values alone.
pub uninterp spec fn md_html(src: Seq<char>, removed: Option<int>, urls: Seq<Seq<char>>) -> Seq<
    char,
>;

/// The view of an optional top-level position.
pub open spec fn opt_idx_view(o: Option<usize>) -> Option<int> {
    match o {
        Some(i) => Some(i as int),
        None => None,
    }
}

/// The view of an optional text.
pub open spec fn opt_text_view(o: Option<String>) -> Option<Seq<char>> {
    match o {
        Some(s) => Some(s@),
        None => None,
    }
}

#[verifier::external_type_specification]
#[verifier::external_body]
pub struct ExOptions<'c>(comrak::Options<'c>);

/// Relies on comrak's `Options`: the fixed parse and render configuration
/// this renderer always uses — tables, task lists, strikethrough, autolinks
/// and heading anchors switched on.
#[verifier::external_body]
fn md_options() -> comrak::Options<'static> {
    let mut o = comrak::Options::default();
    o.extension.table = true;
    o.extension.tasklist = true;
    o.extension.strikethrough = true;
    o.extension.autolink = true;
    o.extension.header_id_prefix = Some(String::new());
    o
}

/// Relies on comrak's `parse_document`: the parse is a pure function of the
/// source text and the fixed options, and this call projects its top-level
/// nodes — headings with their inline literals, any other block as such —
/// out as plain values.
#[verifier::external_body]
fn scan_tops(src: &str) -> (r: Vec<TopNode>)
    ensures
        r@.map_values(|t: TopNode| t@) == md_tops(src@),
{
    let arena = comrak::Arena::new();
    let o = md_options();
    let root = comrak::parse_document(&arena, src, &o);
    root.children().map(|n| match &n.data().value {
        comrak::nodes::NodeValue::Heading(h) => TopNode::Heading {
            level: h.level,
            pieces: n.descendants().map(|d| match &d.data().value {
                comrak::nodes::NodeValue::Text(t) => TitlePiece::Lit(t.to_string()),
                comrak::nodes::NodeValue::Code(c) => TitlePiece::Lit(c.literal.clone()),
                comrak::nodes::NodeValue::LineBreak | comrak::nodes::NodeValue::SoftBreak => TitlePiece::Brk,
                _ => TitlePiece::Skip,
            }).collect(),
        },
        _ => TopNode::Other,
    }).collect()
}

/// Relies on comrak's `parse_document`: projects the parsed document's
/// hyperlink targets out as plain values, in document order.
#[verifier::external_body]
fn scan_links(src: &str) -> (r: Vec<String>)
    ensures
        r@.map_values(|u: String| u@) == md_links(src@),
{
    let arena = comrak::Arena::new();
    let o = md_options();
    let root = comrak::parse_document(&arena, src, &o);
    let mut r: Vec<String> = Vec::new();
    for d in root.descendants() {
        if let comrak::nodes::NodeValue::Link(l) = &d.data().value {
            r.push(l.url.clone());
        }
    }
    r
}

/// Relies on comrak's `parse_document` and `format_document`: both are pure
/// functions of their inputs, so the HTML depends on the source and the
/// edits alone. The edits are applied mechanically: hyperlink targets are
/// replaced pairwise in document order, and the top-level node at `removed`
/// is detached.
#[verifier::external_body]
fn render_edited(src: &str, removed: Option<usize>, urls: &Vec<String>) -> (r: String)
    ensures
        r@ == md_html(src@, opt_idx_view(removed), urls@.map_values(|u: String| u@)),
{
    let arena = comrak::Arena::new();
    let o = md_options();
    let root = comrak::parse_document(&arena, src, &o);
    let mut it = urls.iter();
    for d in root.descendants() {
        if let comrak::nodes::NodeValue::Link(l) = &mut d.data_mut().value {
            if let Some(u) = it.next() { l.url = u.clone(); }
        }
    }
    if let Some(ri) = removed {
        if let Some(n) = root.children().nth(ri) { n.detach(); }
    }
    let mut out = String::new();
    comrak::format_html(root, &o, &mut out).unwrap_or_default();
    out
}

/// What one inline piece contributes to a title: its literal text, a single
/// space for a line break, nothing otherwise.
pub open spec fn piece_text(p: TitlePieceView) -> Seq<char> {
    match p {
        TitlePieceView::Lit(s) => s,
        TitlePieceView::Brk => seq![' '],
        TitlePieceView::Skip => Seq::empty(),
    }
}

/// A heading's flattened title text: its pieces' contributions, in order.
pub open spec fn flatten_pieces(ps: Seq<TitlePieceView>) -> Seq<char>
    decreases ps.len(),
{
    if ps.len() == 0 {
        Seq::empty()
    } else {
        piece_text(ps[0]) + flatten_pieces(ps.drop_first())
    }
}

/// A node that title extraction consumes: a top-level level-1 heading.
pub open spec fn is_title_heading(t: TopNodeView) -> bool {
    t matches TopNodeView::Heading { level, .. } && level == 1
}

/// The position of the first top-level level-1 heading, if any.
pub open spec fn title_idx(tops: Seq<TopNodeView>) -> Option<int>
    decreases tops.len(),
{
    if tops.len() == 0 {
        None
    } else if is_title_heading(tops[0]) {
        Some(0)
    } else {
        match title_idx(tops.drop_first()) {
            Some(i) => Some(i + 1),
            None => None,
        }
    }
}

/// The document title: the flattened text of the first top-level level-1
/// heading, absent when there is none.
pub open spec fn title_of(tops: Seq<TopNodeView>) -> Option<Seq<char>> {
    match title_idx(tops) {
        Some(i) => match tops[i] {
            TopNodeView::Heading { pieces, .. } => Some(flatten_pieces(pieces)),
            _ => None,
        },
        None => None,
    }
}

/// Every link target rewritten to be reference-relative, in document order.
pub open spec fn rewritten_links(links: Seq<Seq<char>>, refname: Seq<char>) -> Seq<Seq<char>> {
    links.map_values(|u: Seq<char>| rewrite_url(u, refname))
}

/// A rendered document: its extracted title, if any, and its HTML body.
pub struct Document {
    pub title: Option<String>,
    pub html: String,
}

/// The view of a rendered document.
pub struct DocumentView {
    pub title: Option<Seq<char>>,
    pub html: Seq<char>,
}

impl View for Document {
    type V = DocumentView;

    open spec fn view(&self) -> DocumentView {
        DocumentView { title: opt_text_view(self.title), html: self.html@ }
    }
}

/// What rendering returns: the title of the first top-level level-1 heading,
/// and the HTML of the document with that heading removed and every link
/// target made reference-relative.
pub open spec fn render_spec(src: Seq<char>, refname: Seq<char>) -> DocumentView {
    let tops = md_tops(src);
    DocumentView {
        title: title_of(tops),
        html: md_html(src, title_idx(tops), rewritten_links(md_links(src), refname)),
    }
}

proof fn lemma_title_idx_at(tops: Seq<TopNodeView>, i: int)
    requires
        0 <= i < tops.len(),
        is_title_heading(tops[i]),
        forall|j: int| 0 <= j < i ==> !is_title_heading(tops[j]),
    ensures
        title_idx(tops) == Some(i),
    decreases i,
{
    if i > 0 {
        lemma_title_idx_at(tops.drop_first(), i - 1);
    }
}

proof fn lemma_title_idx_none(tops: Seq<TopNodeView>)
    requires
        forall|j: int| 0 <= j < tops.len() ==> !is_title_heading(tops[j]),
    ensures
        title_idx(tops) is None,
    decreases tops.len(),
{
    if tops.len() > 0 {
        lemma_title_idx_none(tops.drop_first());
    }
}

proof fn lemma_flatten_push(ps: Seq<TitlePieceView>, x: TitlePieceView)
    ensures
        flatten_pieces(ps.push(x)) == flatten_pieces(ps) + piece_text(x),
    decreases ps.len(),
{
    if ps.len() == 0 {
        assert(ps.push(x).drop_first() =~= Seq::empty());
        assert(ps.push(x)[0] == x);
        assert(flatten_pieces(Seq::<TitlePieceView>::empty()) =~= Seq::<char>::empty());
        assert(flatten_pieces(ps.push(x)) =~= piece_text(x));
        assert(flatten_pieces(ps) + piece_text(x) =~= piece_text(x));
    } else {
        assert(ps.push(x).drop_first() =~= ps.drop_first().push(x));
        lemma_flatten_push(ps.drop_first(), x);
        assert(ps.push(x)[0] == ps[0]);
        assert(piece_text(ps[0]) + (flatten_pieces(ps.drop_first()) + piece_text(x)) =~= (
        piece_text(ps[0]) + flatten_pieces(ps.drop_first())) + piece_text(x));
    }
}

/// Flattens a heading's pieces into its title text.
fn flatten_title(pieces: &Vec<TitlePiece>) -> (r: String)
    ensures
        r@ == flatten_pieces(pieces@.map_values(|p: TitlePiece| p@)),
{
    let ghost pv = pieces@.map_values(|p: TitlePiece| p@);
    let mut r = String::new();
    let mut i: usize = 0;
    proof {
        assert(pv.take(0) =~= Seq::empty());
    }
    while i < pieces.len()
        invariant
            i <= pieces@.len(),
            pv == pieces@.map_values(|p: TitlePiece| p@),
            r@ == flatten_pieces(pv.take(i as int)),
        decreases pieces@.len() - i,
    {
        match &pieces[i] {
            TitlePiece::Lit(s) => {
                r.append(s.as_str());
            },
            TitlePiece::Brk => {
                proof {
                    reveal_strlit(" ");
                }
                r.append(" ");
            },
            TitlePiece::Skip => {},
        }
        proof {
            assert(pv.take(i + 1) =~= pv.take(i as int).push(pv[i as int]));
            lemma_flatten_push(pv.take(i as int), pv[i as int]);
            assert(pv[i as int] == pieces@[i as int]@);
        }
        i += 1;
    }
    proof {
        assert(pv.take(pv.len() as int) =~= pv);
    }
    r
}

/// Finds the first top-level level-1 heading and flattens its title text.
fn find_title(tops: &Vec<TopNode>) -> (r: Option<(usize, String)>)
    ensures
        ({
            let tv = tops@.map_values(|t: TopNode| t@);
            match r {
                Some(p) => title_idx(tv) == Some(p.0 as int) && title_of(tv) == Some(p.1@),
                None => title_idx(tv) is None,
            }
        }),
{
    let ghost tv = tops@.map_values(|t: TopNode| t@);
    let mut i: usize = 0;
    while i < tops.len()
        invariant
            i <= tops@.len(),
            tv == tops@.map_values(|t: TopNode| t@),
            forall|j: int| 0 <= j < i ==> !is_title_heading(tv[j]),
        decreases tops@.len() - i,
    {
        let found: Option<String> = match &tops[i] {
            TopNode::Heading { level, pieces } => {
                if *level == 1 {
                    Some(flatten_title(pieces))
                } else {
                    None
                }
            },
            _ => None,
        };
        proof {
            assert(tv[i as int] == tops@[i as int]@);
        }
        if let Some(text) = found {
            proof {
                lemma_title_idx_at(tv, i as int);
            }
            return Some((i, text));
        }
        i += 1;
    }
    proof {
        lemma_title_idx_none(tv);
    }
    None
}

/// Renders Markdown source under a reference name: extracts the title, makes
/// link targets reference-relative, and serializes to HTML.
pub fn render(source: &str, current_ref: &str) -> (d: Document)
    ensures
        d@ == render_spec(source@, current_ref@),
{
    let tops = scan_tops(source);
    let ghost tv = md_tops(source@);
    proof {
        assert(tops@.map_values(|t: TopNode| t@) == tv);
    }
    let (removed, title): (Option<usize>, Option<String>) = match find_title(&tops) {
        Some(p) => (Some(p.0), Some(p.1)),
        None => (None, None),
    };
    proof {
        assert(opt_idx_view(removed) == title_idx(tv));
        assert(opt_text_view(title) == title_of(tv));
    }
    let links = scan_links(source);
    let ghost lv = md_links(source@);
    proof {
        assert(links@.map_values(|u: String| u@) == lv);
    }
    let mut urls: Vec<String> = Vec::new();
    let mut k: usize = 0;
    while k < links.len()
        invariant
            k <= links@.len(),
            links@.map_values(|u: String| u@) == lv,
            urls@.len() == k,
            forall|j: int|
                0 <= j < k ==> (#[trigger] urls@[j])@ == rewritten_links(lv, current_ref@)[j],
        decreases links@.len() - k,
    {
        let next = rewrite_link_target(links[k].as_str(), current_ref);
        proof {
            assert(lv[k as int] == links@[k as int]@);
        }
        urls.push(next);
        k += 1;
    }
    proof {
        assert(urls@.map_values(|u: String| u@) =~= rewritten_links(lv, current_ref@));
    }
    let html = render_edited(source, removed, &urls);
    Document { title, html }
}

} // verus!
