use acadrust::entities::mtext_format::{
    parse_mtext, MTextDocument, MTextParagraph, MTextSpan, SpanProperties,
    StackingData as AcadStacking, StackingType as AcadStackingType,
};
use opencadstudio::mtext_editor::cells::{
    cells_delete_range, cells_to_doc, doc_to_cells, str_to_cells, Cell, MTextDoc, Paragraph, Span,
    StackingData, StackingType, DEFAULT_STYLE,
};
use opencadstudio::mtext_editor::raw::{content_has_trailing_break, visible_spans};
use opencadstudio::mtext_editor::splice::{selection_chars, splice_range, splice_selection};
use opencadstudio::mtext_editor::{
    commit_action, mtext_cancel, normalize_typed_breaks, CommitAction, MTextCaretState,
};

/// Span formatting interned as keys; key 0 is the default formatting.
struct Styles(Vec<SpanProperties>);

impl Styles {
    fn new() -> Self {
        Styles(vec![SpanProperties::default()])
    }
    fn key(&mut self, p: &SpanProperties) -> u64 {
        match self.0.iter().position(|q| q == p) {
            Some(i) => i as u64,
            None => {
                self.0.push(p.clone());
                (self.0.len() - 1) as u64
            }
        }
    }
}

fn from_acad(d: &MTextDocument, st: &mut Styles) -> MTextDoc {
    MTextDoc {
        paragraphs: d
            .paragraphs
            .iter()
            .map(|p| Paragraph {
                spans: p
                    .spans
                    .iter()
                    .map(|s| Span {
                        text: s.text.clone(),
                        props: st.key(&s.properties),
                        stacking: s.stacking.as_ref().map(|k| StackingData {
                            numerator: k.numerator.clone(),
                            denominator: k.denominator.clone(),
                            stacking_type: match k.stacking_type {
                                AcadStackingType::Horizontal => StackingType::Horizontal,
                                AcadStackingType::Diagonal => StackingType::Diagonal,
                                AcadStackingType::Limit => StackingType::Limit,
                            },
                        }),
                    })
                    .collect(),
            })
            .collect(),
    }
}

fn to_acad(d: &MTextDoc, st: &Styles) -> MTextDocument {
    let mut doc = MTextDocument::new();
    doc.paragraphs.clear();
    for p in &d.paragraphs {
        let mut para = MTextParagraph::new();
        for s in &p.spans {
            let mut span = MTextSpan::new(s.text.clone(), st.0[s.props as usize].clone());
            span.stacking = s.stacking.as_ref().map(|k| AcadStacking {
                numerator: k.numerator.clone(),
                denominator: k.denominator.clone(),
                stacking_type: match k.stacking_type {
                    StackingType::Horizontal => AcadStackingType::Horizontal,
                    StackingType::Diagonal => AcadStackingType::Diagonal,
                    StackingType::Limit => AcadStackingType::Limit,
                },
            });
            para.spans.push(span);
        }
        doc.paragraphs.push(para);
    }
    doc
}

fn rt(s: &str) -> String {
    let mut st = Styles::new();
    let d = from_acad(&parse_mtext(s, true), &mut st);
    to_acad(&cells_to_doc(&doc_to_cells(&d)), &st).to_mtext_string()
}

fn paras(s: &str) -> Vec<String> {
    parse_mtext(s, true)
        .paragraphs
        .iter()
        .map(|p| p.spans.iter().map(|sp| sp.text.clone()).collect())
        .collect()
}

fn cells_of(s: &str) -> Vec<Cell> {
    let mut st = Styles::new();
    doc_to_cells(&from_acad(&parse_mtext(s, true), &mut st))
}

fn mtext_of(cells: &[Cell]) -> String {
    to_acad(&cells_to_doc(cells), &Styles::new()).to_mtext_string()
}

#[test]
fn roundtrip_idempotent() {
    for s in ["hello", "a b c", "one\\Ptwo", "a\\Pb\\Pc", "trailing\\P", "a  b", "\\S1/2;"] {
        let once = rt(s);
        let twice = rt(&once);
        assert_eq!(once, twice, "not idempotent for {s:?}: {once:?} vs {twice:?}");
    }
}

#[test]
fn cell_count_matches_plain() {
    assert_eq!(cells_of("ab\\Pcd").len(), 5); // a b Break c d
    // parse_mtext drops the trailing empty paragraph; the editor restores it
    // on rebuild, so this pure-parse count is 2.
    assert_eq!(cells_of("ab\\P").len(), 2);
}

#[test]
fn trailing_break_survives_doc_roundtrip() {
    let cells = vec![
        Cell::Char('a', DEFAULT_STYLE),
        Cell::Char('b', DEFAULT_STYLE),
        Cell::Break,
    ];
    let back = doc_to_cells(&cells_to_doc(&cells));
    assert_eq!(back, cells);
    // Typing after the trailing break lands on the new (empty) paragraph.
    let mut c2 = cells.clone();
    c2.splice(3..3, str_to_cells("x", DEFAULT_STYLE));
    assert_eq!(paras(&mtext_of(&c2)), vec!["ab", "x"]);
}

#[test]
fn insert_break_splits_paragraph() {
    let mut cells = cells_of("abcd");
    cells.splice(2..2, str_to_cells("\\P", DEFAULT_STYLE));
    assert_eq!(paras(&mtext_of(&cells)), vec!["ab", "cd"]);
}

#[test]
fn backspace_break_merges_paragraphs() {
    let mut cells = cells_of("ab\\Pcd"); // [a,b,Break,c,d]
    let caret = cells_delete_range(&mut cells, 2, 3); // delete the Break slot
    assert_eq!(caret, 2);
    assert_eq!(paras(&mtext_of(&cells)), vec!["abcd"]);
}

#[test]
fn delete_range_across_paragraphs() {
    let mut cells = cells_of("abc\\Pdef"); // [a,b,c,Break,d,e,f]
    cells_delete_range(&mut cells, 1, 5); // b c Break d
    assert_eq!(paras(&mtext_of(&cells)), vec!["aef"]);
}

#[test]
fn stacking_is_atomic() {
    let cells = cells_of("\\S1/2;");
    assert_eq!(cells.len(), 3);
    assert!(matches!(cells[0], Cell::Stack { head: true, .. }));
    assert!(cells[1].is_stack_cont() && cells[2].is_stack_cont());
    let mut c2 = cells.clone();
    let start = cells_delete_range(&mut c2, 1, 2); // interior delete widens to whole run
    assert_eq!(start, 0);
    assert!(c2.is_empty());
}

#[test]
fn trailing_break_detection() {
    assert!(content_has_trailing_break("{ab\\P}")); // braced (to_mtext_string form)
    assert!(content_has_trailing_break("ab\\P")); // unbraced
    assert!(!content_has_trailing_break("{a\\Pb}")); // break in the middle
    assert!(!content_has_trailing_break("ab"));
    assert!(!content_has_trailing_break("{x\\\\P}")); // escaped literal backslash + P
}

#[test]
fn enter_at_end_survives_rebuild() {
    let cells = vec![
        Cell::Char('a', DEFAULT_STYLE),
        Cell::Char('b', DEFAULT_STYLE),
        Cell::Break,
    ];
    let raw = mtext_of(&cells);
    let mut d = parse_mtext(&raw, true);
    if content_has_trailing_break(&raw) {
        d.paragraphs.push(MTextParagraph::new());
    }
    let mut st = Styles::new();
    assert_eq!(doc_to_cells(&from_acad(&d, &mut st)).len(), 3, "trailing break must survive rebuild");
}

// ── caret editing ──────────────────────────────────────────────────────────

fn editor(s: &str, caret: usize, sel: Option<(usize, usize)>) -> (MTextCaretState, Styles) {
    let mut st = Styles::new();
    let doc = from_acad(&parse_mtext(s, true), &mut st);
    (MTextCaretState { doc, caret, sel, sel_anchor: 0, caret_blink_on: false }, st)
}

#[test]
fn typing_replaces_selection_and_moves_caret() {
    let (mut ed, st) = editor("hello", 5, Some((1, 4)));
    ed.mtext_type("EY");
    assert_eq!(paras(&to_acad(&ed.doc, &st).to_mtext_string()), vec!["hEYo"]);
    assert_eq!(ed.caret, 3);
    assert_eq!(ed.sel, Some((3, 3)));
    assert!(ed.caret_blink_on);
}

#[test]
fn typed_newlines_become_breaks() {
    assert_eq!(normalize_typed_breaks("a\r\nb\nc\rd"), "a\\Pb\\Pc\\Pd");
    let (mut ed, st) = editor("ab", 2, None);
    ed.mtext_type("\nc");
    assert_eq!(paras(&to_acad(&ed.doc, &st).to_mtext_string()), vec!["ab", "c"]);
    assert_eq!(ed.caret, 4);
}

#[test]
fn backspace_and_delete_at_edges() {
    let (mut ed, _) = editor("ab", 0, None);
    ed.mtext_backspace();
    assert_eq!(ed.caret, 0);
    assert_eq!(ed.mtext_vis_count(), 2);
    ed.mtext_delete();
    assert_eq!(ed.mtext_vis_count(), 1);
    assert_eq!(ed.caret, 0);
    let (mut ed2, _) = editor("ab", 2, None);
    ed2.mtext_delete();
    assert_eq!(ed2.mtext_vis_count(), 2);
    ed2.mtext_backspace();
    assert_eq!(ed2.mtext_vis_count(), 1);
    assert_eq!(ed2.caret, 1);
}

#[test]
fn caret_move_clamps_to_text() {
    let (mut ed, _) = editor("abc", 1, None);
    ed.mtext_caret_move(-5);
    assert_eq!(ed.caret, 0);
    ed.mtext_caret_move(10);
    assert_eq!(ed.caret, 3);
    assert_eq!(ed.sel, Some((3, 3)));
}

#[test]
fn visible_spans_skip_codes() {
    assert_eq!(visible_spans("ab"), vec![(0, 1), (1, 2)]);
    assert_eq!(visible_spans("\\La\\lb"), vec![(2, 3), (5, 6)]);
    assert_eq!(visible_spans("é"), vec![(0, 2)]);
}

#[test]
fn visible_spans_trim_paragraph_edges() {
    assert_eq!(visible_spans(" a "), vec![(1, 2)]);
    assert_eq!(visible_spans("a \\P b"), vec![(0, 1), (2, 4), (5, 6)]);
    assert_eq!(visible_spans("\\~x "), vec![(2, 3)]);
    assert_eq!(visible_spans("a b"), vec![(0, 1), (1, 2), (2, 3)]);
    assert_eq!(visible_spans("a\nb"), vec![(0, 1), (1, 2), (2, 3)]);
    assert_eq!(visible_spans("%% x"), vec![(3, 4)]);
    assert_eq!(visible_spans("   "), Vec::<(usize, usize)>::new());
    assert_eq!(visible_spans(" \\P "), vec![(1, 3)]);
    assert_eq!(selection_chars(" ab ", Some((0, 2))), Some((1, 3)));
}

#[test]
fn selection_maps_to_characters() {
    assert_eq!(selection_chars("\\La\\lbc", Some((0, 2))), Some((2, 6)));
    assert_eq!(selection_chars("abc", Some((1, 1))), None);
    assert_eq!(selection_chars("abc", Some((2, 4))), None);
    assert_eq!(selection_chars("abc", None), None);
    assert_eq!(selection_chars("é%%dx", Some((1, 2))), Some((1, 4)));
}

#[test]
fn format_codes_wrap_the_selection() {
    assert_eq!(splice_selection("abc", Some((1, 3)), "\\L", "\\l", None), Some("a\\Lbc\\l".to_string()));
    assert_eq!(splice_selection("abc", Some((0, 2)), "", "", Some(true)), Some("ABc".to_string()));
    assert_eq!(splice_selection("straße", Some((4, 6)), "", "", Some(true)), Some("straSSE".to_string()));
    assert_eq!(splice_selection("ABC", Some((1, 2)), "", "", Some(false)), Some("AbC".to_string()));
    assert_eq!(splice_selection("abc", Some((3, 3)), "x", "y", None), None);
    assert_eq!(splice_range("abcd", 1, 3, "[", "X", "]"), "a[X]d");
}

#[test]
fn commit_and_cancel() {
    assert_eq!(commit_action(" \t\n", Some(5)), CommitAction::Discard);
    assert_eq!(commit_action("", None), CommitAction::Discard);
    assert_eq!(commit_action("x", Some(5)), CommitAction::UpdateExisting(5));
    assert_eq!(commit_action(" x ", None), CommitAction::CreateNew);
    let (ed, _) = editor("abc", 1, None);
    let mut slot = Some(ed);
    mtext_cancel(&mut slot);
    assert!(slot.is_none());
}
