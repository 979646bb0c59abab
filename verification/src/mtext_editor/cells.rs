//! The MText editor's flat caret-index space.
//!
//! A structured MText document (paragraphs of styled spans) is flattened to
//! one [`Cell`] per caret slot; edits splice or drain the cell list and the
//! document is rebuilt from it. Formatting is carried as a [`StyleKey`]: two
//! spans share formatting exactly when their keys are equal.

use vstd::prelude::*;
use crate::text_util::push_char;

verus! {

/// Identifies one formatting state (font, colour, height, decorations, …).
/// Equal keys mean identical formatting.
pub type StyleKey = u64;

/// The formatting of text typed where nothing is to the left of the caret.
pub const DEFAULT_STYLE: StyleKey = 0;

/// Visual style of a stacked (`\S`) fraction or limit.
#[derive(Clone, Copy, Debug, PartialEq, Eq)]
pub enum StackingType {
    /// `\S<num>/<den>;`
    Horizontal,
    /// `\S<num>#<den>;`
    Diagonal,
    /// `\S<num>^<den>;`
    Limit,
}

/// A stacked fraction or limit.
#[derive(Clone, Debug, PartialEq)]
pub struct StackingData {
    pub numerator: String,
    pub denominator: String,
    pub stacking_type: StackingType,
}

/// Mathematical form of a stacking: numerator, denominator, style.
pub type StackView = (Seq<char>, Seq<char>, StackingType);

impl View for StackingData {
    type V = StackView;

    open spec fn view(&self) -> StackView {
        (self.numerator@, self.denominator@, self.stacking_type)
    }
}

impl StackingData {
    /// A copy with the same numerator, denominator and style.
    pub fn duplicate(&self) -> (r: StackingData)
        ensures
            r@ == self@,
    {
        StackingData {
            numerator: self.numerator.clone(),
            denominator: self.denominator.clone(),
            stacking_type: self.stacking_type,
        }
    }
}

/// One styled run of text within a paragraph. A stacking span carries its
/// content in `stacking` and an empty `text`.
#[derive(Clone, Debug, PartialEq)]
pub struct Span {
    pub text: String,
    pub props: StyleKey,
    pub stacking: Option<StackingData>,
}

/// The scalar values of a sequence of characters.
pub open spec fn codes(s: Seq<char>) -> Seq<u32> {
    s.map_values(|c: char| c as u32)
}

pub struct SpanView {
    /// The span's characters, by scalar value.
    pub text: Seq<u32>,
    pub props: StyleKey,
    pub stacking: Option<StackView>,
}

impl View for Span {
    type V = SpanView;

    open spec fn view(&self) -> SpanView {
        SpanView {
            text: codes(self.text@),
            props: self.props,
            stacking: match self.stacking {
                Some(st) => Some(st@),
                None => None,
            },
        }
    }
}

/// One paragraph: a sequence of spans.
#[derive(Clone, Debug, PartialEq)]
pub struct Paragraph {
    pub spans: Vec<Span>,
}

impl View for Paragraph {
    type V = Seq<SpanView>;

    open spec fn view(&self) -> Seq<SpanView> {
        self.spans@.map_values(|s: Span| s@)
    }
}

/// A structured MText document: paragraphs separated by hard breaks.
#[derive(Clone, Debug, PartialEq)]
pub struct MTextDoc {
    pub paragraphs: Vec<Paragraph>,
}

impl View for MTextDoc {
    type V = Seq<Seq<SpanView>>;

    open spec fn view(&self) -> Seq<Seq<SpanView>> {
        self.paragraphs@.map_values(|p: Paragraph| p@)
    }
}

/// One editable unit: exactly one per caret slot.
#[derive(Clone, Debug, PartialEq)]
pub enum Cell {
    /// A visible character with the formatting of its span.
    Char(char, StyleKey),
    /// A paragraph break (`\P`).
    Break,
    /// One flattened glyph of a stacking span. A run begins with a
    /// `head == true` cell; the cells that follow with `head == false`
    /// continue it, and edits never split a run.
    Stack { data: StackingData, props: StyleKey, head: bool },
}

pub enum CellView {
    /// A visible character, by its scalar value, with its formatting.
    Glyph(u32, StyleKey),
    Break,
    Stack(StackView, StyleKey, bool),
}

impl View for Cell {
    type V = CellView;

    open spec fn view(&self) -> CellView {
        match self {
            Cell::Char(c, p) => CellView::Glyph(*c as u32, *p),
            Cell::Break => CellView::Break,
            Cell::Stack { data, props, head } => CellView::Stack(data@, *props, *head),
        }
    }
}

/// The view of a list of cells.
pub open spec fn cells_view(c: Seq<Cell>) -> Seq<CellView> {
    c.map_values(|x: Cell| x@)
}

/// Pushing a cell pushes its view.
pub proof fn lemma_cells_view_push(s: Seq<Cell>, c: Cell)
    ensures
        cells_view(s.push(c)) == cells_view(s).push(c@),
{
    let a = cells_view(s.push(c));
    let b = cells_view(s).push(c@);
    assert(a.len() == b.len());
    assert forall|j: int| 0 <= j < a.len() implies a[j] == b[j] by {
        if j < s.len() {
            assert(s.push(c)[j] == s[j]);
        } else {
            assert(s.push(c)[j] == c);
        }
    }
    assert(a =~= b);
}

/// A continuation cell of a stacking run.
pub open spec fn is_cont(c: CellView) -> bool {
    c matches CellView::Stack(_, _, head) && !head
}

impl Cell {
    /// True for a continuation cell of a stacking run.
    pub fn is_stack_cont(&self) -> (b: bool)
        ensures
            b == is_cont(self@),
    {
        match self {
            Cell::Stack { head, .. } => !*head,
            _ => false,
        }
    }

    /// A copy of this cell.
    pub fn duplicate(&self) -> (r: Cell)
        ensures
            r@ == self@,
    {
        match self {
            Cell::Char(c, p) => Cell::Char(*c, *p),
            Cell::Break => Cell::Break,
            Cell::Stack { data, props, head } => Cell::Stack {
                data: data.duplicate(),
                props: *props,
                head: *head,
            },
        }
    }
}

/// The separator written between numerator and denominator.
pub open spec fn stack_sep(t: StackingType) -> char {
    match t {
        StackingType::Limit => '^',
        StackingType::Diagonal => '#',
        StackingType::Horizontal => '/',
    }
}

/// The flattened glyphs of a stacking: `num<sep>den`, or just `num` when the
/// denominator is empty.
pub open spec fn flat(st: StackView) -> Seq<char> {
    if st.1.len() > 0 {
        st.0 + seq![stack_sep(st.2)] + st.1
    } else {
        st.0
    }
}

/// The flattened `num<sep>den` glyphs of a stacking span, in reading order.
pub fn flatten_stack(st: &StackingData) -> (s: String)
    ensures
        s@ == flat(st@),
{
    let sep = match st.stacking_type {
        StackingType::Limit => '^',
        StackingType::Diagonal => '#',
        StackingType::Horizontal => '/',
    };
    let mut flat_s = st.numerator.clone();
    if !string_is_empty(&st.denominator) {
        push_char(&mut flat_s, sep);
        let d = st.denominator.as_str();
        crate::text_util::push_str(&mut flat_s, d);
    }
    flat_s
}

/// True when `s` has no characters.
pub fn string_is_empty(s: &String) -> (b: bool)
    ensures
        b == (s@.len() == 0),
{
    s.as_str().is_empty()
}

// ── Flattening a document ────────────────────────────────────────────────

/// The cells of one span.
pub open spec fn span_cells(sv: SpanView) -> Seq<CellView> {
    match sv.stacking {
        Some(st) => stack_run(st, sv.props, flat(st).len()),
        None => text_cells(sv.text, sv.props),
    }
}

/// One `Glyph` cell per character of `t`.
pub open spec fn text_cells(t: Seq<u32>, p: StyleKey) -> Seq<CellView>
    decreases t.len(),
{
    if t.len() == 0 {
        Seq::empty()
    } else {
        text_cells(t.drop_last(), p).push(CellView::Glyph(t.last(), p))
    }
}

/// A stacking run of `n` cells: a head followed by `n - 1` continuations.
pub open spec fn stack_run(st: StackView, p: StyleKey, n: nat) -> Seq<CellView>
    decreases n,
{
    if n == 0 {
        Seq::empty()
    } else {
        stack_run(st, p, (n - 1) as nat).push(CellView::Stack(st, p, n == 1))
    }
}

/// Length and content of a text run.
pub proof fn lemma_text_cells(t: Seq<u32>, p: StyleKey)
    ensures
        text_cells(t, p).len() == t.len(),
        forall|i: int| 0 <= i < t.len() ==> #[trigger] text_cells(t, p)[i] == CellView::Glyph(t[i], p),
    decreases t.len(),
{
    if t.len() > 0 {
        lemma_text_cells(t.drop_last(), p);
    }
}

/// Length and content of a stacking run.
pub proof fn lemma_stack_run(st: StackView, p: StyleKey, n: nat)
    ensures
        stack_run(st, p, n).len() == n,
        forall|i: int| 0 <= i < n ==> #[trigger] stack_run(st, p, n)[i] == CellView::Stack(st, p, i == 0),
    decreases n,
{
    if n > 0 {
        lemma_stack_run(st, p, (n - 1) as nat);
    }
}

/// The cells of one paragraph.
pub open spec fn para_cells(p: Seq<SpanView>) -> Seq<CellView>
    decreases p.len(),
{
    if p.len() == 0 {
        Seq::empty()
    } else {
        para_cells(p.drop_last()) + span_cells(p.last())
    }
}

/// The cells of a document: paragraphs joined by `Break` cells.
pub open spec fn doc_cells(d: Seq<Seq<SpanView>>) -> Seq<CellView>
    decreases d.len(),
{
    if d.len() == 0 {
        Seq::empty()
    } else if d.len() == 1 {
        para_cells(d[0])
    } else {
        doc_cells(d.drop_last()) + seq![CellView::Break] + para_cells(d.last())
    }
}

/// Appends the cells of one span to `cells`.
fn push_span_cells(cells: &mut Vec<Cell>, span: &Span)
    ensures
        cells_view(final(cells)@) == cells_view(old(cells)@) + span_cells(span@),
{
    let ghost start = cells_view(cells@);
    match &span.stacking {
        Some(st) => {
            let f = flatten_stack(st);
            let n = crate::text_util::chars_of(f.as_str()).len();
            let ghost sv = span@;
            let ghost target = span_cells(sv);
            proof {
                lemma_stack_run(st@, span.props, n as nat);
            }
            assert(target.len() == n);
            assert(target == stack_run(st@, span.props, n as nat));
            let mut head = true;
            let mut i: usize = 0;
            while i < n
                invariant
                    0 <= i <= n,
                    n == flat(st@).len(),
                    target == stack_run(st@, span.props, n as nat),
                    target.len() == n,
                    head == (i == 0),
                    cells_view(cells@) == start + target.take(i as int),
                decreases n - i,
            {
                let ghost prev = cells@;
                let c = Cell::Stack { data: st.duplicate(), props: span.props, head };
                proof {
                    lemma_stack_run(st@, span.props, n as nat);
                }
                assert(c@ == target[i as int]);
                cells.push(c);
                proof {
                    assert(target.take(i + 1) =~= target.take(i as int).push(target[i as int]));
                    lemma_cells_view_push(prev, c);
                }
                head = false;
                i = i + 1;
            }
            proof {
                assert(target.take(n as int) =~= target);
            }
        },
        None => {
            let chars = crate::text_util::chars_of(span.text.as_str());
            let ghost target = span_cells(span@);
            proof {
                lemma_text_cells(codes(span.text@), span.props);
            }
            assert(target.len() == chars@.len());
            assert(target == text_cells(codes(span.text@), span.props));
            let mut i: usize = 0;
            while i < chars.len()
                invariant
                    0 <= i <= chars@.len(),
                    chars@ == span.text@,
                    span.stacking is None,
                    target == text_cells(codes(span.text@), span.props),
                    target.len() == chars@.len(),
                    cells_view(cells@) == start + target.take(i as int),
                decreases chars@.len() - i,
            {
                let ghost prev = cells@;
                let c = Cell::Char(chars[i], span.props);
                proof {
                    lemma_text_cells(codes(span.text@), span.props);
                }
                assert(c@ == target[i as int]);
                cells.push(c);
                proof {
                    assert(target.take(i + 1) =~= target.take(i as int).push(target[i as int]));
                    lemma_cells_view_push(prev, c);
                }
                i = i + 1;
            }
            proof {
                assert(target.take(chars@.len() as int) =~= target);
            }
        },
    }
}

/// Flatten a document into one cell per visible slot (the editor's caret
/// index space).
pub fn doc_to_cells(doc: &MTextDoc) -> (cells: Vec<Cell>)
    ensures
        cells_view(cells@) == doc_cells(doc@),
{
    let mut cells: Vec<Cell> = Vec::new();
    let mut pi: usize = 0;
    while pi < doc.paragraphs.len()
        invariant
            0 <= pi <= doc.paragraphs@.len(),
            cells_view(cells@) == doc_cells(doc@.take(pi as int)),
        decreases doc.paragraphs@.len() - pi,
    {
        let ghost before = cells_view(cells@);
        if pi > 0 {
            let ghost prev = cells@;
            cells.push(Cell::Break);
            proof {
                lemma_cells_view_push(prev, Cell::Break);
            }
        }
        let ghost mid = cells_view(cells@);
        let para = &doc.paragraphs[pi];
        let mut si: usize = 0;
        while si < para.spans.len()
            invariant
                0 <= si <= para.spans@.len(),
                cells_view(cells@) == mid + para_cells(para@.take(si as int)),
            decreases para.spans@.len() - si,
        {
            push_span_cells(&mut cells, &para.spans[si]);
            proof {
                assert(para@.take(si + 1).drop_last() =~= para@.take(si as int));
                assert(para@.take(si + 1).last() == para.spans@[si as int]@);
            }
            si = si + 1;
        }
        proof {
            assert(para@.take(para.spans@.len() as int) =~= para@);
            let d = doc@.take(pi + 1);
            assert(d.drop_last() =~= doc@.take(pi as int));
            assert(d.last() == doc.paragraphs@[pi as int]@);
            if pi == 0 {
                assert(before =~= Seq::<CellView>::empty());
                assert(mid =~= before);
            }
        }
        pi = pi + 1;
    }
    proof {
        assert(doc@.take(doc.paragraphs@.len() as int) =~= doc@);
    }
    cells
}

// ── Rebuilding a document ────────────────────────────────────────────────

/// A paragraph's mathematical form.
pub type ParaView = Seq<SpanView>;

/// The rebuild state: finished paragraphs and the paragraph being filled.
pub type Acc = (Seq<ParaView>, ParaView);

/// The empty rebuild state.
pub open spec fn acc_init() -> Acc {
    (Seq::empty(), Seq::empty())
}

/// One rebuild step. Adjacent glyphs with equal formatting coalesce into one
/// span; a break closes the paragraph; a stacking head re-emits its span and
/// continuation cells add nothing.
pub open spec fn step(acc: Acc, c: CellView) -> Acc {
    match c {
        CellView::Break => (acc.0.push(acc.1), Seq::empty()),
        CellView::Glyph(ch, p) => {
            let cur = acc.1;
            if cur.len() > 0 && cur.last().stacking is None && cur.last().props == p {
                (
                    acc.0,
                    cur.update(
                        cur.len() - 1,
                        SpanView {
                            text: cur.last().text.push(ch),
                            props: p,
                            stacking: None,
                        },
                    ),
                )
            } else {
                (acc.0, cur.push(SpanView { text: seq![ch], props: p, stacking: None }))
            }
        },
        CellView::Stack(st, p, head) => {
            if head {
                (acc.0, acc.1.push(SpanView { text: Seq::empty(), props: p, stacking: Some(st) }))
            } else {
                acc
            }
        },
    }
}

/// Rebuild steps over a list of cells, first to last.
pub open spec fn fold_cells(acc: Acc, c: Seq<CellView>) -> Acc
    decreases c.len(),
{
    if c.len() == 0 {
        acc
    } else {
        fold_cells(step(acc, c[0]), c.drop_first())
    }
}

/// The document a rebuild state stands for.
pub open spec fn finish(acc: Acc) -> Seq<ParaView> {
    acc.0.push(acc.1)
}

/// The document rebuilt from a list of cells.
pub open spec fn cells_doc(c: Seq<CellView>) -> Seq<ParaView> {
    finish(fold_cells(acc_init(), c))
}

/// True when `s` has formatting `p` and no stacking.
fn span_extends(s: &Span, p: StyleKey) -> (b: bool)
    ensures
        b == (s@.stacking is None && s@.props == p),
{
    s.stacking.is_none() && s.props == p
}

/// Rebuild a document from an edited cell list: adjacent `Char` cells with
/// equal formatting coalesce into one span, a `Break` starts a new paragraph,
/// and a stacking run's head cell re-emits the whole stacking span.
pub fn cells_to_doc(cells: &[Cell]) -> (doc: MTextDoc)
    ensures
        doc@ == cells_doc(cells_view(cells@)),
{
    let ghost all = cells_view(cells@);
    let mut done: Vec<Paragraph> = Vec::new();
    let mut para = Paragraph { spans: Vec::new() };
    let mut i: usize = 0;
    proof {
        assert(all.skip(0) =~= all);
        assert(done@.map_values(|q: Paragraph| q@) =~= Seq::<ParaView>::empty());
        assert(para@ =~= Seq::<SpanView>::empty());
    }
    while i < cells.len()
        invariant
            0 <= i <= cells@.len(),
            all == cells_view(cells@),
            fold_cells((done@.map_values(|q: Paragraph| q@), para@), all.skip(i as int))
                == fold_cells(acc_init(), all),
        decreases cells@.len() - i,
    {
        let ghost acc = (done@.map_values(|q: Paragraph| q@), para@);
        let ghost c = all[i as int];
        proof {
            assert(all.skip(i as int).drop_first() =~= all.skip(i + 1));
            assert(all.skip(i as int)[0] == c);
            assert(c == cells@[i as int]@);
        }
        match &cells[i] {
            Cell::Break => {
                let ghost old_done = done@;
                let finished = Paragraph { spans: para.spans };
                done.push(finished);
                para = Paragraph { spans: Vec::new() };
                proof {
                    old_done.lemma_push_map_commute(|q: Paragraph| q@, finished);
                    assert(para@ =~= Seq::<SpanView>::empty());
                }
            },
            Cell::Char(ch, props) => {
                let n = para.spans.len();
                if n > 0 && span_extends(&para.spans[n - 1], *props) {
                    let ghost old_spans = para.spans@;
                    let mut last = para.spans.pop().unwrap();
                    let ghost old_text = last.text@;
                    push_char(&mut last.text, *ch);
                    para.spans.push(last);
                    proof {
                        old_text.lemma_push_map_commute(|c: char| c as u32, *ch);
                        assert(para.spans@ == old_spans.update(n - 1, last));
                        assert(para@ =~= acc.1.update(
                            n - 1,
                            SpanView {
                                text: acc.1.last().text.push(*ch as u32),
                                props: *props,
                                stacking: None,
                            },
                        ));
                    }
                } else {
                    let ghost old_spans = para.spans@;
                    let mut text = String::new();
                    push_char(&mut text, *ch);
                    let sp = Span { text, props: *props, stacking: None };
                    para.spans.push(sp);
                    proof {
                        old_spans.lemma_push_map_commute(|s: Span| s@, sp);
                        assert(text@ =~= seq![*ch]);
                        assert(codes(text@) =~= seq![*ch as u32]);
                        assert(sp@ == SpanView { text: seq![*ch as u32], props: *props, stacking: None });
                    }
                }
            },
            Cell::Stack { data, props, head } => {
                if *head {
                    let ghost old_spans = para.spans@;
                    let sp = Span { text: String::new(), props: *props, stacking: Some(data.duplicate()) };
                    para.spans.push(sp);
                    proof {
                        old_spans.lemma_push_map_commute(|s: Span| s@, sp);
                        assert(sp@.text =~= Seq::<u32>::empty());
                    }
                }
            },
        }
        proof {
            assert((done@.map_values(|q: Paragraph| q@), para@) == step(acc, c));
        }
        i = i + 1;
    }
    let ghost last_acc = (done@.map_values(|q: Paragraph| q@), para@);
    let ghost old_done = done@;
    done.push(para);
    proof {
        assert(all.skip(i as int) =~= Seq::<CellView>::empty());
        old_done.lemma_push_map_commute(|q: Paragraph| q@, para);
    }
    MTextDoc { paragraphs: done }
}

// ── Well-formed cell lists and the round-trip law ─────────────────────────

/// A well-formed cell list: every stacking run is a head followed by exactly the continuation cells of its
/// flattened glyphs (same stacking, same formatting).
pub open spec fn wf_cells(c: Seq<CellView>) -> bool
    decreases c.len(),
{
    if c.len() == 0 {
        true
    } else {
        match c[0] {
            CellView::Stack(st, p, head) => {
                let m = flat(st).len();
                &&& head
                &&& 1 <= m <= c.len()
                &&& c.take(m as int) == stack_run(st, p, m)
                &&& wf_cells(c.skip(m as int))
            },
            _ => wf_cells(c.drop_first()),
        }
    }
}

/// Continuation cells add nothing to a rebuild.
proof fn lemma_fold_skip_conts(acc: Acc, c: Seq<CellView>, k: int)
    requires
        0 <= k <= c.len(),
        forall|j: int| 0 <= j < k ==> is_cont(#[trigger] c[j]),
    ensures
        fold_cells(acc, c) == fold_cells(acc, c.skip(k)),
    decreases k,
{
    if k == 0 {
        assert(c.skip(0) =~= c);
    } else {
        assert(is_cont(c[0]));
        assert(step(acc, c[0]) == acc);
        let rest = c.drop_first();
        assert forall|j: int| 0 <= j < k - 1 implies is_cont(#[trigger] rest[j]) by {
            assert(rest[j] == c[j + 1]);
        }
        lemma_fold_skip_conts(acc, rest, k - 1);
        assert(rest.skip(k - 1) =~= c.skip(k));
    }
}

/// Growing the open paragraph grows the document's cells by the same amount.
proof fn lemma_finish_grow(a: Seq<ParaView>, cur: ParaView, cur2: ParaView, x: Seq<CellView>)
    requires
        para_cells(cur2) == para_cells(cur) + x,
    ensures
        doc_cells(a.push(cur2)) == doc_cells(a.push(cur)) + x,
{
    assert(a.push(cur2).drop_last() =~= a);
    assert(a.push(cur).drop_last() =~= a);
    if a.len() == 0 {
        assert(a.push(cur2)[0] == cur2);
        assert(a.push(cur)[0] == cur);
    } else {
        assert(doc_cells(a.push(cur2)) == doc_cells(a) + seq![CellView::Break] + para_cells(cur2));
        assert(doc_cells(a.push(cur)) == doc_cells(a) + seq![CellView::Break] + para_cells(cur));
        assert(doc_cells(a) + seq![CellView::Break] + (para_cells(cur) + x) =~= doc_cells(a)
            + seq![CellView::Break] + para_cells(cur) + x);
    }
}

/// One glyph step adds exactly that glyph.
proof fn lemma_step_glyph(acc: Acc, ch: u32, p: StyleKey)
    ensures
        doc_cells(finish(step(acc, CellView::Glyph(ch, p)))) == doc_cells(finish(acc)) + seq![
            CellView::Glyph(ch, p),
        ],
{
    let cur = acc.1;
    let g = CellView::Glyph(ch, p);
    let acc2 = step(acc, g);
    if cur.len() > 0 && cur.last().stacking is None && cur.last().props == p {
        let last = cur.last();
        let s2 = SpanView { text: last.text.push(ch), props: p, stacking: None };
        let cur2 = cur.update(cur.len() - 1, s2);
        assert(acc2.1 == cur2);
        assert(cur2.drop_last() =~= cur.drop_last());
        assert(cur2.last() == s2);
        assert(s2.text.drop_last() =~= last.text);
        assert(span_cells(s2) == text_cells(last.text, p).push(g));
        assert(span_cells(last) == text_cells(last.text, p));
        assert(para_cells(cur2) =~= para_cells(cur) + seq![g]);
        lemma_finish_grow(acc.0, cur, cur2, seq![g]);
    } else {
        let s2 = SpanView { text: seq![ch], props: p, stacking: None };
        let cur2 = cur.push(s2);
        assert(acc2.1 == cur2);
        assert(cur2.drop_last() =~= cur);
        assert(s2.text.drop_last() =~= Seq::<u32>::empty());
        lemma_text_cells(s2.text, p);
        assert(span_cells(s2) =~= seq![g]);
        assert(para_cells(cur2) =~= para_cells(cur) + seq![g]);
        lemma_finish_grow(acc.0, cur, cur2, seq![g]);
    }
}

/// Rebuilding a well-formed cell list and flattening the result appends
/// exactly those cells to whatever the rebuild state already stood for.
proof fn lemma_fold_roundtrip(acc: Acc, c: Seq<CellView>)
    requires
        wf_cells(c),
    ensures
        doc_cells(finish(fold_cells(acc, c))) == doc_cells(finish(acc)) + c,
    decreases c.len(),
{
    if c.len() == 0 {
        assert(doc_cells(finish(acc)) + c =~= doc_cells(finish(acc)));
    } else {
        let rest = c.drop_first();
        match c[0] {
            CellView::Break => {
                let acc2 = step(acc, c[0]);
                lemma_fold_roundtrip(acc2, rest);
                let a = acc.0.push(acc.1);
                assert(finish(acc2) == a.push(Seq::<SpanView>::empty()));
                assert(a.push(Seq::<SpanView>::empty()).drop_last() =~= a);
                assert(para_cells(Seq::<SpanView>::empty()) =~= Seq::<CellView>::empty());
                assert(doc_cells(finish(acc2)) =~= doc_cells(finish(acc)) + seq![CellView::Break]);
                assert(doc_cells(finish(acc)) + seq![CellView::Break] + rest =~= doc_cells(
                    finish(acc),
                ) + c);
            },
            CellView::Glyph(ch, p) => {
                let acc2 = step(acc, c[0]);
                lemma_step_glyph(acc, ch, p);
                lemma_fold_roundtrip(acc2, rest);
                assert(doc_cells(finish(acc)) + seq![c[0]] + rest =~= doc_cells(finish(acc)) + c);
            },
            CellView::Stack(st, p, head) => {
                let m = flat(st).len();
                let acc2 = step(acc, c[0]);
                let sp = SpanView { text: Seq::empty(), props: p, stacking: Some(st) };
                assert(acc2 == (acc.0, acc.1.push(sp)));
                lemma_stack_run(st, p, m);
                assert forall|j: int| 0 <= j < m - 1 implies is_cont(#[trigger] rest[j]) by {
                    assert(rest[j] == c[j + 1]);
                    assert(c[j + 1] == c.take(m as int)[j + 1]);
                }
                lemma_fold_skip_conts(acc2, rest, m - 1);
                assert(rest.skip(m - 1) =~= c.skip(m as int));
                lemma_fold_roundtrip(acc2, c.skip(m as int));
                assert(acc.1.push(sp).drop_last() =~= acc.1);
                assert(span_cells(sp) == c.take(m as int));
                assert(para_cells(acc.1.push(sp)) == para_cells(acc.1) + c.take(m as int));
                lemma_finish_grow(acc.0, acc.1, acc.1.push(sp), c.take(m as int));
                assert(doc_cells(finish(acc)) + c.take(m as int) + c.skip(m as int) =~= doc_cells(
                    finish(acc),
                ) + c);
            },
        }
    }
}

/// Round trip: rebuilding a document from a well-formed cell list and
/// flattening it again gives back exactly the same cells.
pub proof fn lemma_cells_roundtrip(c: Seq<CellView>)
    requires
        wf_cells(c),
    ensures
        doc_cells(cells_doc(c)) == c,
{
    lemma_fold_roundtrip(acc_init(), c);
    let e = Seq::<ParaView>::empty().push(Seq::<SpanView>::empty());
    assert(finish(acc_init()) == e);
    assert(e[0] =~= Seq::<SpanView>::empty());
    assert(doc_cells(e) =~= Seq::<CellView>::empty());
    assert(Seq::<CellView>::empty() + c =~= c);
}

/// Rebuilding is idempotent: a document rebuilt from its own cells keeps
/// the same cells, so rebuilding it again changes nothing.
pub proof fn lemma_rebuild_idempotent(d: Seq<ParaView>)
    ensures
        doc_cells(cells_doc(doc_cells(d))) == doc_cells(d),
        cells_doc(doc_cells(cells_doc(doc_cells(d)))) == cells_doc(doc_cells(d)),
{
    lemma_doc_cells_wf(d);
    lemma_cells_roundtrip(doc_cells(d));
}

/// Concatenating two well-formed cell lists is well formed.
pub proof fn lemma_wf_concat(a: Seq<CellView>, b: Seq<CellView>)
    requires
        wf_cells(a),
        wf_cells(b),
    ensures
        wf_cells(a + b),
    decreases a.len(),
{
    if a.len() == 0 {
        assert(a + b =~= b);
    } else {
        let ab = a + b;
        assert(ab[0] == a[0]);
        match a[0] {
            CellView::Stack(st, p, head) => {
                let m = flat(st).len();
                assert(ab.take(m as int) =~= a.take(m as int));
                assert(ab.skip(m as int) =~= a.skip(m as int) + b);
                lemma_wf_concat(a.skip(m as int), b);
            },
            _ => {
                assert(ab.drop_first() =~= a.drop_first() + b);
                lemma_wf_concat(a.drop_first(), b);
            },
        }
    }
}

/// A list of glyphs and breaks is well formed.
proof fn lemma_wf_plain(c: Seq<CellView>)
    requires
        forall|i: int| 0 <= i < c.len() ==> !(#[trigger] c[i] is Stack),
    ensures
        wf_cells(c),
    decreases c.len(),
{
    if c.len() > 0 {
        let rest = c.drop_first();
        assert forall|i: int| 0 <= i < rest.len() implies !(#[trigger] rest[i] is Stack) by {
            assert(rest[i] == c[i + 1]);
        }
        lemma_wf_plain(rest);
    }
}

/// The cells of any span are well formed.
proof fn lemma_wf_span(sv: SpanView)
    ensures
        wf_cells(span_cells(sv)),
{
    match sv.stacking {
        Some(st) => {
            let m = flat(st).len();
            let r = stack_run(st, sv.props, m);
            lemma_stack_run(st, sv.props, m);
            if m > 0 {
                assert(r[0] == CellView::Stack(st, sv.props, true));
                assert(r.take(m as int) =~= r);
                assert(r.skip(m as int) =~= Seq::<CellView>::empty());
                assert(wf_cells(r.skip(m as int)));
                assert(r.len() > 0);
                assert(wf_cells(r));
            }
        },
        None => {
            lemma_text_cells(sv.text, sv.props);
            let r = text_cells(sv.text, sv.props);
            assert forall|i: int| 0 <= i < r.len() implies !(#[trigger] r[i] is Stack) by {
                assert(r[i] == CellView::Glyph(sv.text[i], sv.props));
            }
            lemma_wf_plain(r);
        },
    }
}

/// The cells of any paragraph are well formed.
proof fn lemma_wf_para(p: ParaView)
    ensures
        wf_cells(para_cells(p)),
    decreases p.len(),
{
    if p.len() > 0 {
        lemma_wf_para(p.drop_last());
        lemma_wf_span(p.last());
        lemma_wf_concat(para_cells(p.drop_last()), span_cells(p.last()));
    }
}

/// Flattening any document gives a well-formed cell list: stacking runs are
/// never split.
pub proof fn lemma_doc_cells_wf(d: Seq<ParaView>)
    ensures
        wf_cells(doc_cells(d)),
    decreases d.len(),
{
    if d.len() == 1 {
        lemma_wf_para(d[0]);
    } else if d.len() > 1 {
        lemma_doc_cells_wf(d.drop_last());
        lemma_wf_para(d.last());
        lemma_wf_plain(seq![CellView::Break]);
        lemma_wf_concat(doc_cells(d.drop_last()), seq![CellView::Break]);
        lemma_wf_concat(doc_cells(d.drop_last()) + seq![CellView::Break], para_cells(d.last()));
    }
}

// ── Editing primitives ───────────────────────────────────────────────────

/// The cells for an inserted string: every `\P` becomes a `Break`, every
/// other character a `Char` with formatting `p`.
pub open spec fn str_cells(s: Seq<char>, p: StyleKey) -> Seq<CellView>
    decreases s.len(),
{
    if s.len() == 0 {
        Seq::empty()
    } else if s.len() >= 2 && s[0] == '\\' && s[1] == 'P' {
        seq![CellView::Break] + str_cells(s.skip(2), p)
    } else {
        seq![CellView::Glyph(s[0] as u32, p)] + str_cells(s.drop_first(), p)
    }
}

/// Turn an inserted string (which may carry `\P` breaks) into cells, tagging
/// every plain character with `props`.
pub fn str_to_cells(s: &str, props: StyleKey) -> (cells: Vec<Cell>)
    ensures
        cells_view(cells@) == str_cells(s@, props),
{
    let v = crate::text_util::chars_of(s);
    let mut cells: Vec<Cell> = Vec::new();
    let mut i: usize = 0;
    proof {
        assert(v@.skip(0) =~= v@);
        assert(cells_view(cells@) =~= Seq::<CellView>::empty());
    }
    while i < v.len()
        invariant
            0 <= i <= v@.len(),
            v@ == s@,
            cells_view(cells@) + str_cells(v@.skip(i as int), props) == str_cells(s@, props),
        decreases v@.len() - i,
    {
        let ghost rest = v@.skip(i as int);
        let ghost prev = cells@;
        if i + 1 < v.len() && v[i] == '\\' && v[i + 1] == 'P' {
            cells.push(Cell::Break);
            proof {
                lemma_cells_view_push(prev, Cell::Break);
                assert(rest.skip(2) =~= v@.skip(i + 2));
                assert(cells_view(prev) + str_cells(rest, props) =~= cells_view(prev).push(
                    CellView::Break,
                ) + str_cells(rest.skip(2), props));
            }
            i = i + 2;
        } else {
            let c = Cell::Char(v[i], props);
            cells.push(c);
            proof {
                lemma_cells_view_push(prev, c);
                assert(rest.drop_first() =~= v@.skip(i + 1));
                assert(cells_view(prev) + str_cells(rest, props) =~= cells_view(prev).push(c@)
                    + str_cells(rest.drop_first(), props));
            }
            i = i + 1;
        }
    }
    proof {
        assert(v@.skip(i as int) =~= Seq::<char>::empty());
        assert(cells_view(cells@) + Seq::<CellView>::empty() =~= cells_view(cells@));
    }
    cells
}

/// The formatting newly typed text at `caret` inherits: that of the cell to
/// its left, or the default at the start of a paragraph or document.
pub open spec fn inherited_style(c: Seq<CellView>, caret: int) -> StyleKey {
    if 1 <= caret <= c.len() {
        match c[caret - 1] {
            CellView::Glyph(_, p) => p,
            CellView::Stack(_, p, _) => p,
            CellView::Break => DEFAULT_STYLE,
        }
    } else {
        DEFAULT_STYLE
    }
}

/// Properties newly-typed text at `caret` inherits — the cell to its left, or
/// the default at the start of a paragraph / document.
pub fn insert_props(cells: &[Cell], caret: usize) -> (p: StyleKey)
    ensures
        p == inherited_style(cells_view(cells@), caret as int),
{
    if caret >= 1 && caret - 1 < cells.len() {
        match &cells[caret - 1] {
            Cell::Char(_, p) => *p,
            Cell::Stack { props, .. } => *props,
            Cell::Break => DEFAULT_STYLE,
        }
    } else {
        DEFAULT_STYLE
    }
}

/// The first index at or after `k` that is not a continuation cell.
pub open spec fn skip_conts(c: Seq<CellView>, k: int) -> int
    decreases c.len() - k,
{
    if 0 <= k < c.len() && is_cont(c[k]) {
        skip_conts(c, k + 1)
    } else {
        k
    }
}

/// Stepping back from `k` to the head of the stacking run it lies in.
pub open spec fn back_to_head(c: Seq<CellView>, k: int) -> int
    decreases k,
{
    if 0 < k < c.len() && is_cont(c[k]) {
        back_to_head(c, k - 1)
    } else {
        k
    }
}

/// A position where the list may be cut: the end, or a cell that is not a
/// continuation of a stacking run.
pub open spec fn is_boundary(c: Seq<CellView>, k: int) -> bool {
    0 <= k <= c.len() && (k == c.len() || !is_cont(c[k]))
}

pub proof fn lemma_skip_conts(c: Seq<CellView>, k: int)
    requires
        0 <= k <= c.len(),
    ensures
        k <= skip_conts(c, k) <= c.len(),
        is_boundary(c, skip_conts(c, k)),
        forall|j: int| k <= j < skip_conts(c, k) ==> is_cont(#[trigger] c[j]),
    decreases c.len() - k,
{
    if k < c.len() && is_cont(c[k]) {
        lemma_skip_conts(c, k + 1);
    }
}

pub proof fn lemma_back_to_head(c: Seq<CellView>, k: int)
    requires
        0 <= k <= c.len(),
        c.len() == 0 || !is_cont(c[0]),
    ensures
        0 <= back_to_head(c, k) <= k,
        is_boundary(c, back_to_head(c, k)),
    decreases k,
{
    if 0 < k < c.len() && is_cont(c[k]) {
        lemma_back_to_head(c, k - 1);
    }
}

/// Nudge an insertion index out of the interior of a stacking run (never split
/// a fraction): step forward past any continuation cells.
pub fn clamp_insert(cells: &[Cell], caret: usize) -> (r: usize)
    requires
        caret <= cells@.len(),
    ensures
        r == skip_conts(cells_view(cells@), caret as int),
        caret <= r <= cells@.len(),
        is_boundary(cells_view(cells@), r as int),
{
    let ghost c = cells_view(cells@);
    proof {
        lemma_skip_conts(c, caret as int);
    }
    let mut k = caret;
    while k < cells.len() && cells[k].is_stack_cont()
        invariant
            caret <= k <= cells@.len(),
            c == cells_view(cells@),
            skip_conts(c, k as int) == skip_conts(c, caret as int),
        decreases cells@.len() - k,
    {
        assert(cells@[k as int]@ == c[k as int]);
        k = k + 1;
    }
    proof {
        if k < cells.len() {
            assert(cells@[k as int]@ == c[k as int]);
        }
    }
    k
}

/// The range `cells_delete_range` removes: `[a, b)` clamped to the list and
/// widened outward so that no stacking run is cut.
pub open spec fn delete_bounds(c: Seq<CellView>, a: int, b: int) -> (int, int) {
    let a1 = if a < c.len() { a } else { c.len() as int };
    let b1 = if b < a1 { a1 } else if b > c.len() { c.len() as int } else { b };
    (back_to_head(c, a1), skip_conts(c, b1))
}

/// Delete cells `[a, b)`, first widening the range so it never cuts a stacking
/// run in half. Returns the (possibly widened) start index — the new caret.
pub fn cells_delete_range(cells: &mut Vec<Cell>, a: usize, b: usize) -> (start: usize)
    requires
        old(cells)@.len() == 0 || !is_cont(old(cells)@[0]@),
    ensures
        ({
            let c = cells_view(old(cells)@);
            let (lo, hi) = delete_bounds(c, a as int, b as int);
            &&& start == lo
            &&& 0 <= lo <= hi <= c.len()
            &&& is_boundary(c, lo)
            &&& is_boundary(c, hi)
            &&& cells_view(final(cells)@) == c.take(lo) + c.skip(hi)
        }),
{
    let ghost c = cells_view(cells@);
    let n = cells.len();
    let mut a = if a < n { a } else { n };
    let mut b = if b < a { a } else if b > n { n } else { b };
    let ghost a1 = a as int;
    let ghost b1 = b as int;
    proof {
        lemma_back_to_head(c, a1);
        lemma_skip_conts(c, b1);
        if n > 0 {
            assert(cells@[0]@ == c[0]);
        }
    }
    while a < cells.len() && cells[a].is_stack_cont()
        invariant
            0 <= a <= a1 <= cells@.len(),
            c == cells_view(cells@),
            c.len() == 0 || !is_cont(c[0]),
            back_to_head(c, a as int) == back_to_head(c, a1),
        decreases a,
    {
        assert(cells@[a as int]@ == c[a as int]);
        if a == 0 {
            assert(false);
        }
        a = a - 1;
    }
    proof {
        if a < cells.len() {
            assert(cells@[a as int]@ == c[a as int]);
        }
    }
    while b < cells.len() && cells[b].is_stack_cont()
        invariant
            b1 <= b <= cells@.len(),
            c == cells_view(cells@),
            skip_conts(c, b as int) == skip_conts(c, b1),
        decreases cells@.len() - b,
    {
        assert(cells@[b as int]@ == c[b as int]);
        b = b + 1;
    }
    proof {
        if b < cells.len() {
            assert(cells@[b as int]@ == c[b as int]);
        }
    }
    let ghost old_cells = cells@;
    let mut tail = cells.split_off(b);
    cells.truncate(a);
    cells.append(&mut tail);
    proof {
        assert(cells@ =~= old_cells.take(a as int) + old_cells.skip(b as int));
        assert(cells_view(cells@) =~= c.take(a as int) + c.skip(b as int));
    }
    a
}

/// Cutting a well-formed list at a boundary leaves two well-formed pieces.
pub proof fn lemma_wf_split(c: Seq<CellView>, k: int)
    requires
        wf_cells(c),
        is_boundary(c, k),
    ensures
        wf_cells(c.take(k)),
        wf_cells(c.skip(k)),
    decreases c.len(),
{
    if k == 0 {
        assert(c.take(0) =~= Seq::<CellView>::empty());
        assert(c.skip(0) =~= c);
    } else if k == c.len() {
        assert(c.take(k) =~= c);
        assert(c.skip(k) =~= Seq::<CellView>::empty());
    } else {
        match c[0] {
            CellView::Stack(st, p, head) => {
                let m = flat(st).len() as int;
                lemma_stack_run(st, p, m as nat);
                if k < m {
                    assert(c[k] == c.take(m)[k]);
                    assert(false);
                }
                let r = c.skip(m);
                assert(is_boundary(r, k - m)) by {
                    if k - m < r.len() {
                        assert(r[k - m] == c[k]);
                    }
                }
                lemma_wf_split(r, k - m);
                assert(r.skip(k - m) =~= c.skip(k));
                assert(c.take(k).take(m) =~= c.take(m));
                assert(c.take(k).skip(m) =~= r.take(k - m));
                assert(c.take(k)[0] == c[0]);
            },
            _ => {
                let r = c.drop_first();
                assert(is_boundary(r, k - 1)) by {
                    if k - 1 < r.len() {
                        assert(r[k - 1] == c[k]);
                    }
                }
                lemma_wf_split(r, k - 1);
                assert(r.skip(k - 1) =~= c.skip(k));
                assert(c.take(k).drop_first() =~= r.take(k - 1));
                assert(c.take(k)[0] == c[0]);
            },
        }
    }
}

/// Deleting never splits a stacking run: on a well-formed list the result of
/// `cells_delete_range` is well formed again.
pub proof fn lemma_delete_keeps_wf(c: Seq<CellView>, a: nat, b: nat)
    requires
        wf_cells(c),
        c.len() == 0 || !is_cont(c[0]),
    ensures
        ({
            let (lo, hi) = delete_bounds(c, a as int, b as int);
            wf_cells(c.take(lo) + c.skip(hi))
        }),
{
    let a1: int = if a < c.len() { a as int } else { c.len() as int };
    let b1: int = if b < a1 { a1 } else if b > c.len() { c.len() as int } else { b as int };
    lemma_back_to_head(c, a1);
    lemma_skip_conts(c, b1);
    let (lo, hi) = delete_bounds(c, a as int, b as int);
    lemma_wf_split(c, lo);
    lemma_wf_split(c, hi);
    lemma_wf_concat(c.take(lo), c.skip(hi));
}

/// Inserting plain text at a boundary of a well-formed list keeps it well
/// formed.
pub proof fn lemma_insert_keeps_wf(c: Seq<CellView>, k: int, s: Seq<char>, p: StyleKey)
    requires
        wf_cells(c),
        is_boundary(c, k),
    ensures
        wf_cells(c.take(k) + str_cells(s, p) + c.skip(k)),
{
    lemma_wf_split(c, k);
    lemma_str_cells_plain(s, p);
    lemma_wf_plain(str_cells(s, p));
    lemma_wf_concat(c.take(k), str_cells(s, p));
    lemma_wf_concat(c.take(k) + str_cells(s, p), c.skip(k));
}

proof fn lemma_str_cells_plain(s: Seq<char>, p: StyleKey)
    ensures
        forall|i: int| 0 <= i < str_cells(s, p).len() ==> !(#[trigger] str_cells(s, p)[i] is Stack),
    decreases s.len(),
{
    if s.len() > 0 {
        if s.len() >= 2 && s[0] == '\\' && s[1] == 'P' {
            lemma_str_cells_plain(s.skip(2), p);
            let r = str_cells(s.skip(2), p);
            assert forall|i: int| 0 <= i < str_cells(s, p).len() implies !(
            #[trigger] str_cells(s, p)[i] is Stack) by {
                if i > 0 {
                    assert(str_cells(s, p)[i] == r[i - 1]);
                }
            }
        } else {
            lemma_str_cells_plain(s.drop_first(), p);
            let r = str_cells(s.drop_first(), p);
            assert forall|i: int| 0 <= i < str_cells(s, p).len() implies !(
            #[trigger] str_cells(s, p)[i] is Stack) by {
                if i > 0 {
                    assert(str_cells(s, p)[i] == r[i - 1]);
                }
            }
        }
    }
}

} // verus!
