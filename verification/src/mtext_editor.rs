//! In-place MText editor logic: the caret-index cell model, the raw-string
//! helpers the formatting toolbar uses, and the caret edit operations.

pub mod cells;
pub mod format;
pub mod raw;
pub mod splice;

use vstd::prelude::*;
use crate::text_util::trim;
use crate::mtext_editor::cells::{
    Cell, CellView, MTextDoc, ParaView, cells_doc, cells_delete_range, cells_to_doc,
    back_to_head, cells_view, clamp_insert, delete_bounds, doc_cells, is_boundary, doc_to_cells, inherited_style, insert_props,
    is_cont, lemma_doc_cells_wf, skip_conts, str_cells, str_to_cells, wf_cells,
};

verus! {

/// A literal newline typed or pasted into the editor becomes the `\P` break
/// code: `\r\n`, `\n` and `\r` each turn into `\P`.
pub open spec fn normalize_breaks(s: Seq<char>) -> Seq<char>
    decreases s.len(),
{
    if s.len() == 0 {
        Seq::empty()
    } else if s.len() >= 2 && s[0] == '\r' && s[1] == '\n' {
        seq!['\\', 'P'] + normalize_breaks(s.skip(2))
    } else if s[0] == '\n' || s[0] == '\r' {
        seq!['\\', 'P'] + normalize_breaks(s.drop_first())
    } else {
        seq![s[0]] + normalize_breaks(s.drop_first())
    }
}

/// Normalise every literal newline in typed text to the `\P` break code.
pub fn normalize_typed_breaks(s: &str) -> (r: String)
    ensures
        r@ == normalize_breaks(s@),
{
    let v = crate::text_util::chars_of(s);
    let mut out: Vec<char> = Vec::new();
    let mut i: usize = 0;
    proof {
        assert(v@.skip(0) =~= v@);
    }
    while i < v.len()
        invariant
            0 <= i <= v@.len(),
            v@ == s@,
            out@ + normalize_breaks(v@.skip(i as int)) == normalize_breaks(s@),
        decreases v@.len() - i,
    {
        let ghost rest = v@.skip(i as int);
        let ghost prev = out@;
        if i + 1 < v.len() && v[i] == '\r' && v[i + 1] == '\n' {
            out.push('\\');
            out.push('P');
            proof {
                assert(rest.skip(2) =~= v@.skip(i + 2));
                assert(prev + normalize_breaks(rest) =~= out@ + normalize_breaks(rest.skip(2)));
            }
            i = i + 2;
        } else if v[i] == '\n' || v[i] == '\r' {
            out.push('\\');
            out.push('P');
            proof {
                assert(rest.drop_first() =~= v@.skip(i + 1));
                assert(prev + normalize_breaks(rest) =~= out@ + normalize_breaks(
                    rest.drop_first(),
                ));
            }
            i = i + 1;
        } else {
            out.push(v[i]);
            proof {
                assert(rest.drop_first() =~= v@.skip(i + 1));
                assert(prev + normalize_breaks(rest) =~= out@ + normalize_breaks(
                    rest.drop_first(),
                ));
            }
            i = i + 1;
        }
    }
    proof {
        assert(v@.skip(i as int) =~= Seq::<char>::empty());
        assert(out@ + Seq::<char>::empty() =~= out@);
    }
    crate::text_util::string_from_chars(out.as_slice())
}

/// Discard the editor without changing the drawing.
pub fn mtext_cancel(editor: &mut Option<MTextCaretState>)
    ensures
        *final(editor) is None,
{
    *editor = None;
}

/// What committing the editor does to the drawing.
#[derive(Clone, Copy, Debug, PartialEq, Eq, Structural)]
pub enum CommitAction {
    /// Nothing: the text is blank (a new MText is dropped, an edited one is
    /// left as it was).
    Discard,
    /// Write the text into the edited entity with this handle.
    UpdateExisting(u64),
    /// Add a new MText entity.
    CreateNew,
}

/// How the editor commits `content` (its raw text), given the handle of the
/// entity it edits, if any: blank text changes nothing.
pub fn commit_action(content: &str, editing: Option<u64>) -> (r: CommitAction)
    ensures
        trim(content@).len() == 0 ==> r == CommitAction::Discard,
        trim(content@).len() > 0 ==> r == match editing {
            Some(h) => CommitAction::UpdateExisting(h),
            None => CommitAction::CreateNew,
        },
{
    let v = crate::text_util::chars_of(content);
    let (a, b) = crate::text_util::trim_bounds(&v, 0, v.len());
    proof {
        assert(v@.subrange(0, v@.len() as int) =~= v@);
    }
    if a == b {
        return CommitAction::Discard;
    }
    match editing {
        Some(h) => CommitAction::UpdateExisting(h),
        None => CommitAction::CreateNew,
    }
}

/// Caret and selection state of the open MText editor, over the structured
/// document the editor edits. Selection and caret are visible-slot indices.
pub struct MTextCaretState {
    /// The structured document being edited.
    pub doc: MTextDoc,
    /// Text caret as a visible-slot offset (`0..=count`).
    pub caret: usize,
    /// The current selection as a visible-slot range `[start, end)`.
    pub sel: Option<(usize, usize)>,
    /// Anchor offset for an in-progress drag selection.
    pub sel_anchor: usize,
    /// The caret is drawn only while this is true.
    pub caret_blink_on: bool,
}

/// The cells of a document, and the cut that removes the selection if one is
/// active, else the caret position clamped to the document.
pub open spec fn cut_selection(c: Seq<CellView>, caret: int, sel: Option<(usize, usize)>) -> (
    Seq<CellView>,
    int,
) {
    match sel {
        Some((a, b)) if a < b && b <= c.len() => {
            let (lo, hi) = delete_bounds(c, a as int, b as int);
            (c.take(lo) + c.skip(hi), lo)
        },
        _ => (c, if caret < c.len() { caret } else { c.len() as int }),
    }
}

/// The cells after typing `s` at the caret (replacing the selection), and
/// where the caret lands.
pub open spec fn typed(c: Seq<CellView>, caret: int, sel: Option<(usize, usize)>, s: Seq<char>) -> (
    Seq<CellView>,
    int,
) {
    let (c1, k0) = cut_selection(c, caret, sel);
    let k = skip_conts(c1, k0);
    let ins = str_cells(normalize_breaks(s), inherited_style(c1, k));
    (c1.take(k) + ins + c1.skip(k), k + ins.len())
}

/// The cells after a backspace, and where the caret lands.
pub open spec fn backspaced(c: Seq<CellView>, caret: int, sel: Option<(usize, usize)>) -> (
    Seq<CellView>,
    int,
) {
    match sel {
        Some((a, b)) if a < b && b <= c.len() => {
            let (lo, hi) = delete_bounds(c, a as int, b as int);
            (c.take(lo) + c.skip(hi), lo)
        },
        _ => if 0 < caret <= c.len() {
            let (lo, hi) = delete_bounds(c, caret - 1, caret);
            (c.take(lo) + c.skip(hi), lo)
        } else {
            (c, if caret < c.len() { caret } else { c.len() as int })
        },
    }
}

/// The cells after a forward delete, and where the caret lands.
pub open spec fn forward_deleted(c: Seq<CellView>, caret: int, sel: Option<(usize, usize)>) -> (
    Seq<CellView>,
    int,
) {
    match sel {
        Some((a, b)) if a < b && b <= c.len() => {
            let (lo, hi) = delete_bounds(c, a as int, b as int);
            (c.take(lo) + c.skip(hi), lo)
        },
        _ => if 0 <= caret < c.len() {
            let (lo, hi) = delete_bounds(c, caret, caret + 1);
            (c.take(lo) + c.skip(hi), lo)
        } else {
            (c, if caret < c.len() { caret } else { c.len() as int })
        },
    }
}

/// The first cell of a well-formed list is never a continuation cell.
proof fn lemma_wf_first(c: Seq<CellView>)
    requires
        wf_cells(c),
    ensures
        c.len() == 0 || !is_cont(c[0]),
{
}

/// Cells of the document, with the facts every edit relies on.
fn current_cells(doc: &MTextDoc) -> (cells: Vec<Cell>)
    ensures
        cells_view(cells@) == doc_cells(doc@),
        wf_cells(cells_view(cells@)),
        cells@.len() == 0 || !is_cont(cells@[0]@),
{
    let cells = doc_to_cells(doc);
    proof {
        lemma_doc_cells_wf(doc@);
        lemma_wf_first(doc_cells(doc@));
        if cells@.len() > 0 {
            assert(cells@[0]@ == cells_view(cells@)[0]);
        }
    }
    cells
}

impl MTextCaretState {
    /// Visible-slot count of the current text.
    pub fn mtext_vis_count(&self) -> (n: usize)
        ensures
            n == doc_cells(self.doc@).len(),
    {
        doc_to_cells(&self.doc).len()
    }

    /// Insert text (or replace the current selection) at the caret. Literal
    /// newlines become paragraph breaks.
    pub fn mtext_type(&mut self, s: &str)
        ensures
            ({
                let (c2, k) = typed(doc_cells(old(self).doc@), old(self).caret as int, old(self).sel, s@);
                &&& final(self).doc@ == cells_doc(c2)
                &&& final(self).caret == k
                &&& final(self).sel == Some((final(self).caret, final(self).caret))
                &&& final(self).caret_blink_on
                &&& final(self).sel_anchor == old(self).sel_anchor
            }),
    {
        let normalized = normalize_typed_breaks(s);
        let mut cells = current_cells(&self.doc);
        let ghost c = cells_view(cells@);
        let count = cells.len();
        let mut caret = match self.sel {
            Some((a, b)) if a < b && b <= count => cells_delete_range(&mut cells, a, b),
            _ => if self.caret < count {
                self.caret
            } else {
                count
            },
        };
        let ghost (c1, k0) = cut_selection(c, self.caret as int, self.sel);
        assert(cells_view(cells@) == c1 && caret == k0);
        assert(cells_view(cells@).len() == cells@.len());
        assert(k0 <= c1.len()) by {
            if let Some((a, b)) = self.sel {
                if a < b && b <= c.len() {
                    let (lo, hi) = delete_bounds(c, a as int, b as int);
                    assert((c.take(lo) + c.skip(hi)).len() == lo + (c.len() - hi));
                }
            }
        }
        caret = clamp_insert(cells.as_slice(), caret);
        let props = insert_props(cells.as_slice(), caret);
        let mut ins = str_to_cells(normalized.as_str(), props);
        let added = ins.len();
        let ghost before = cells@;
        let mut tail = cells.split_off(caret);
        cells.append(&mut ins);
        cells.append(&mut tail);
        proof {
            assert(cells_view(cells@) =~= cells_view(before).take(caret as int) + str_cells(
                normalize_breaks(s@),
                props,
            ) + cells_view(before).skip(caret as int));
        }
        let total = cells.len();
        assert(caret + added <= total);
        caret = caret + added;
        self.doc = cells_to_doc(cells.as_slice());
        self.caret = caret;
        self.sel = Some((caret, caret));
        self.caret_blink_on = true;
    }

    /// Delete the selection, or the visible slot before the caret.
    pub fn mtext_backspace(&mut self)
        ensures
            ({
                let (c2, k) = backspaced(doc_cells(old(self).doc@), old(self).caret as int, old(self).sel);
                &&& final(self).doc@ == cells_doc(c2)
                &&& final(self).caret == k
                &&& final(self).sel == Some((final(self).caret, final(self).caret))
                &&& final(self).caret_blink_on
                &&& final(self).sel_anchor == old(self).sel_anchor
            }),
    {
        let mut cells = current_cells(&self.doc);
        let count = cells.len();
        let caret = match self.sel {
            Some((a, b)) if a < b && b <= count => cells_delete_range(&mut cells, a, b),
            _ => if self.caret > 0 && self.caret <= count {
                cells_delete_range(&mut cells, self.caret - 1, self.caret)
            } else if self.caret < count {
                self.caret
            } else {
                count
            },
        };
        self.doc = cells_to_doc(cells.as_slice());
        self.caret = caret;
        self.sel = Some((caret, caret));
        self.caret_blink_on = true;
    }

    /// Delete the selection, or the visible slot at the caret.
    pub fn mtext_delete(&mut self)
        ensures
            ({
                let (c2, k) = forward_deleted(doc_cells(old(self).doc@), old(self).caret as int, old(self).sel);
                &&& final(self).doc@ == cells_doc(c2)
                &&& final(self).caret == k
                &&& final(self).sel == Some((final(self).caret, final(self).caret))
                &&& final(self).caret_blink_on
                &&& final(self).sel_anchor == old(self).sel_anchor
            }),
    {
        let mut cells = current_cells(&self.doc);
        let count = cells.len();
        let caret = match self.sel {
            Some((a, b)) if a < b && b <= count => cells_delete_range(&mut cells, a, b),
            _ => if self.caret < count {
                cells_delete_range(&mut cells, self.caret, self.caret + 1)
            } else {
                count
            },
        };
        self.doc = cells_to_doc(cells.as_slice());
        self.caret = caret;
        self.sel = Some((caret, caret));
        self.caret_blink_on = true;
    }

    /// Move the caret by `delta` visible slots, clamped to the text; clears
    /// the selection.
    pub fn mtext_caret_move(&mut self, delta: i32)
        requires
            doc_cells(old(self).doc@).len() <= i32::MAX,
            old(self).caret <= i32::MAX,
        ensures
            ({
                let n = doc_cells(old(self).doc@).len() as int;
                let t = old(self).caret + delta;
                let c = if t < 0 { 0 } else if t > n { n } else { t };
                &&& final(self).caret == c
                &&& final(self).sel == Some((final(self).caret, final(self).caret))
                &&& final(self).caret_blink_on
                &&& final(self).doc == old(self).doc
                &&& final(self).sel_anchor == old(self).sel_anchor
            }),
    {
        let n = doc_to_cells(&self.doc).len() as i32;
        let t = self.caret as i64 + delta as i64;
        let c: i64 = if t < 0 {
            0
        } else if t > n as i64 {
            n as i64
        } else {
            t
        };
        self.caret = c as usize;
        self.sel = Some((self.caret, self.caret));
        self.caret_blink_on = true;
    }
}

/// After any typing, the caret index space of the rebuilt document is exactly
/// the edited cell list: its visible-slot count, and the slot the caret now
/// sits at, are the ones the edit computed.
pub proof fn lemma_typed_roundtrip(d: Seq<ParaView>, caret: nat, sel: Option<(usize, usize)>, s: Seq<char>)
    ensures
        ({
            let (c2, k) = typed(doc_cells(d), caret as int, sel, s);
            &&& doc_cells(cells_doc(c2)) == c2
            &&& 0 <= k <= c2.len()
        }),
{
    let c = doc_cells(d);
    lemma_doc_cells_wf(d);
    lemma_wf_first(c);
    let (c1, k0) = cut_selection(c, caret as int, sel);
    match sel {
        Some((a, b)) => {
            if a < b && b <= c.len() {
                crate::mtext_editor::cells::lemma_delete_keeps_wf(c, a as nat, b as nat);
                let a1: int = if a < c.len() { a as int } else { c.len() as int };
                let b1: int = if b < a1 { a1 } else if b > c.len() { c.len() as int } else { b as int };
                crate::mtext_editor::cells::lemma_back_to_head(c, a1);
                crate::mtext_editor::cells::lemma_skip_conts(c, b1);
            }
        },
        None => {},
    }
    assert(wf_cells(c1));
    assert(0 <= k0 <= c1.len());
    crate::mtext_editor::cells::lemma_skip_conts(c1, k0);
    let k = skip_conts(c1, k0);
    let ns = normalize_breaks(s);
    let p = inherited_style(c1, k);
    crate::mtext_editor::cells::lemma_insert_keeps_wf(c1, k, ns, p);
    let c2 = c1.take(k) + str_cells(ns, p) + c1.skip(k);
    crate::mtext_editor::cells::lemma_cells_roundtrip(c2);
}

/// A deletion of `[a, b)` from the cells of a document leaves cells that a
/// rebuilt document gives back unchanged, with the new caret inside them.
proof fn lemma_delete_roundtrip(c: Seq<CellView>, a: nat, b: nat)
    requires
        wf_cells(c),
        c.len() == 0 || !is_cont(c[0]),
    ensures
        ({
            let (lo, hi) = delete_bounds(c, a as int, b as int);
            let c2 = c.take(lo) + c.skip(hi);
            &&& doc_cells(cells_doc(c2)) == c2
            &&& 0 <= lo <= c2.len()
        }),
{
    crate::mtext_editor::cells::lemma_delete_keeps_wf(c, a, b);
    let a1: int = if a < c.len() { a as int } else { c.len() as int };
    let b1: int = if b < a1 { a1 } else if b > c.len() { c.len() as int } else { b as int };
    crate::mtext_editor::cells::lemma_back_to_head(c, a1);
    crate::mtext_editor::cells::lemma_skip_conts(c, b1);
    let (lo, hi) = delete_bounds(c, a as int, b as int);
    crate::mtext_editor::cells::lemma_cells_roundtrip(c.take(lo) + c.skip(hi));
}

/// After a backspace, the rebuilt document has exactly the edited cells, and
/// the caret lies within them.
pub proof fn lemma_backspace_roundtrip(d: Seq<ParaView>, caret: nat, sel: Option<(usize, usize)>)
    ensures
        ({
            let (c2, k) = backspaced(doc_cells(d), caret as int, sel);
            &&& doc_cells(cells_doc(c2)) == c2
            &&& 0 <= k <= c2.len()
        }),
{
    let c = doc_cells(d);
    lemma_doc_cells_wf(d);
    lemma_wf_first(c);
    match sel {
        Some((a, b)) => {
            if a < b && b <= c.len() {
                lemma_delete_roundtrip(c, a as nat, b as nat);
                return;
            }
        },
        None => {},
    }
    if 0 < caret <= c.len() {
        lemma_delete_roundtrip(c, (caret - 1) as nat, caret);
    } else {
        crate::mtext_editor::cells::lemma_cells_roundtrip(c);
    }
}

/// After a forward delete, the rebuilt document has exactly the edited
/// cells, and the caret lies within them.
pub proof fn lemma_delete_forward_roundtrip(d: Seq<ParaView>, caret: nat, sel: Option<(usize, usize)>)
    ensures
        ({
            let (c2, k) = forward_deleted(doc_cells(d), caret as int, sel);
            &&& doc_cells(cells_doc(c2)) == c2
            &&& 0 <= k <= c2.len()
        }),
{
    let c = doc_cells(d);
    lemma_doc_cells_wf(d);
    lemma_wf_first(c);
    match sel {
        Some((a, b)) => {
            if a < b && b <= c.len() {
                lemma_delete_roundtrip(c, a as nat, b as nat);
                return;
            }
        },
        None => {},
    }
    if caret < c.len() {
        lemma_delete_roundtrip(c, caret, caret + 1);
    } else {
        crate::mtext_editor::cells::lemma_cells_roundtrip(c);
    }
}

/// With a non-empty selection `[a, b)` inside the text, forward delete does
/// not look at the caret: it removes the selected cells (widened only so that
/// no stacking run is cut) and puts the caret where the removed range began,
/// exactly as backspace does and as typing nothing over the selection does.
/// Where neither end of the selection falls inside a stacking run, exactly the
/// cells `[a, b)` go and the caret lands at `a`.
pub proof fn lemma_delete_selection(d: Seq<ParaView>, k1: int, k2: int, a: usize, b: usize)
    requires
        a < b <= doc_cells(d).len(),
    ensures
        ({
            let c = doc_cells(d);
            let (lo, hi) = delete_bounds(c, a as int, b as int);
            let (c2, k) = forward_deleted(c, k1, Some((a, b)));
            &&& 0 <= lo <= a
            &&& b <= hi <= c.len()
            &&& c2 == c.take(lo) + c.skip(hi)
            &&& k == lo
            &&& forward_deleted(c, k1, Some((a, b))) == forward_deleted(c, k2, Some((a, b)))
            &&& forward_deleted(c, k1, Some((a, b))) == backspaced(c, k2, Some((a, b)))
            &&& forward_deleted(c, k1, Some((a, b))) == typed(c, k2, Some((a, b)), Seq::empty())
            &&& (is_boundary(c, a as int) && is_boundary(c, b as int)) ==> (c2 == c.take(a as int)
                + c.skip(b as int) && k == a)
        }),
{
    let c = doc_cells(d);
    lemma_doc_cells_wf(d);
    lemma_wf_first(c);
    crate::mtext_editor::cells::lemma_back_to_head(c, a as int);
    crate::mtext_editor::cells::lemma_skip_conts(c, b as int);
    let (lo, hi) = delete_bounds(c, a as int, b as int);
    let c1 = c.take(lo) + c.skip(hi);
    assert(normalize_breaks(Seq::<char>::empty()) =~= Seq::<char>::empty());
    let ins = str_cells(Seq::<char>::empty(), inherited_style(c1, lo));
    assert(ins =~= Seq::<CellView>::empty());
    if lo < c1.len() {
        assert(c1[lo] == c[hi]);
    }
    assert(skip_conts(c1, lo) == lo);
    assert(c1.take(lo) + ins + c1.skip(lo) =~= c1);
}

/// Typing one character (not a line break) with no selection, at a caret
/// that does not split a stacking run, is undone by one backspace: the cells
/// come back as they were and the caret returns to where it was (an empty
/// selection, as typing leaves, changes nothing). Moving back over the new
/// character and deleting forward undoes it too.
pub proof fn lemma_type_then_backspace(d: Seq<ParaView>, k: int, x: char, j: usize)
    requires
        is_boundary(doc_cells(d), k),
        x != '\n',
        x != '\r',
    ensures
        ({
            let c = doc_cells(d);
            let (c2, k2) = typed(c, k, None, seq![x]);
            &&& k2 == k + 1
            &&& c2.len() == c.len() + 1
            &&& backspaced(c2, k2, None) == (c, k)
            &&& backspaced(c2, k2, Some((j, j))) == (c, k)
            &&& forward_deleted(c2, k, None) == (c, k)
        }),
{
    let c = doc_cells(d);
    lemma_doc_cells_wf(d);
    lemma_wf_first(c);
    assert(cut_selection(c, k, None) == (c, k));
    assert(skip_conts(c, k) == k);
    let sx = seq![x];
    assert(sx[0] == x);
    assert(sx.drop_first() =~= Seq::<char>::empty());
    assert(normalize_breaks(Seq::<char>::empty()) =~= Seq::<char>::empty());
    assert(normalize_breaks(sx) =~= seq![x]);
    let p = inherited_style(c, k);
    let g = CellView::Glyph(x as u32, p);
    assert(str_cells(seq![x].drop_first(), p) =~= Seq::<CellView>::empty());
    assert(str_cells(seq![x], p) =~= seq![g]);
    let c2 = c.take(k) + seq![g] + c.skip(k);
    assert(c2[k] == g);
    assert(!is_cont(g));
    if k + 1 < c2.len() {
        assert(c2[k + 1] == c[k]);
    }
    assert(back_to_head(c2, k) == k);
    assert(skip_conts(c2, k + 1) == k + 1);
    assert(c2.take(k) + c2.skip(k + 1) =~= c);
}

/// Typed text keeps no literal line break: each one became `\P`.
pub proof fn lemma_no_raw_breaks(s: Seq<char>)
    ensures
        forall|i: int|
            0 <= i < normalize_breaks(s).len() ==> #[trigger] normalize_breaks(s)[i] != '\n'
                && normalize_breaks(s)[i] != '\r',
    decreases s.len(),
{
    if s.len() == 0 {
    } else if s.len() >= 2 && s[0] == '\r' && s[1] == '\n' {
        lemma_no_raw_breaks(s.skip(2));
        let t = normalize_breaks(s.skip(2));
        assert forall|i: int| 0 <= i < normalize_breaks(s).len() implies #[trigger] normalize_breaks(s)[i] != '\n'
            && normalize_breaks(s)[i] != '\r' by {
            if i >= 2 {
                assert(normalize_breaks(s)[i] == t[i - 2]);
            }
        }
    } else {
        lemma_no_raw_breaks(s.drop_first());
        let t = normalize_breaks(s.drop_first());
        assert forall|i: int| 0 <= i < normalize_breaks(s).len() implies #[trigger] normalize_breaks(s)[i] != '\n'
            && normalize_breaks(s)[i] != '\r' by {
            if s[0] == '\n' || s[0] == '\r' {
                if i >= 2 {
                    assert(normalize_breaks(s)[i] == t[i - 2]);
                }
            } else {
                if i >= 1 {
                    assert(normalize_breaks(s)[i] == t[i - 1]);
                }
            }
        }
    }
}

} // verus!
