use opencadstudio::cli::{gui_config, Cli, GuiConfig};
use opencadstudio::command::{all_registered_command_names, names_of, registrations, CmdResult, CommandRegistration, DynField};
use opencadstudio::entities::labels::{
    attachment_str, content_type_str, parse_attachment, path_type_str, text_halign_str,
    text_valign_str, LeaderContentType, MultiLeaderPathType, TextAttachmentType,
    TextHorizontalAlignment, TextVerticalAlignment,
};
use opencadstudio::entities::properties::{bool_toggle, choice, PropValue};
use opencadstudio::modules::home::divide::DivideCommand;
use opencadstudio::modules::home::join::JoinCommand;
use opencadstudio::entities::solid3d::{acis_size_str, decimal};
use opencadstudio::modules::annotate::leader_cmd::{parse_ct, LeaderCreationType};
use opencadstudio::modules::annotate::textedit::{
    Step, TextEditMode, TexteditCommand, TexteditmodeCommand,
};
use opencadstudio::modules::draw::explode::ExplodeCommand;
use opencadstudio::mtext_editor::format::{
    align_code, fmt_codes, font_color_prefix, justify_choices, justify_label, AttachmentPoint,
    MTextFmt, ParaAlign,
};
use opencadstudio::ribbon::{IconKind, ModuleEvent};
use opencadstudio::text_support::{
    blank_trim_bounds, decorated, font_stem, glyph_atoms, line_is_blank, resolve_dxf_special_chars,
    stack_text, AtomKind, Decorations, MTextRunKind,
};
use opencadstudio::mtext_editor::cells::{StackingData, StackingType};
use opencadstudio::text_util::str_lt;
use opencadstudio::transport::{encode_frame, frame_len, TransportError, MAX_MESSAGE_SIZE};

// ── TEXTEDIT ───────────────────────────────────────────────────────────────

#[test]
fn textedit_prompts_follow_state() {
    let mut c = TexteditCommand::new(false);
    assert_eq!(c.name(), "TEXTEDIT");
    assert_eq!(c.prompt(), "TEXTEDIT Select an annotation object or [Undo Mode]:");
    assert!(c.needs_entity_pick());
    assert_eq!(c.on_text_input("  MODE "), Some(CmdResult::NeedPoint));
    assert!(!c.needs_entity_pick());
    assert_eq!(c.prompt(), "TEXTEDIT Enter text edit mode [Single/Multiple] <Multiple>:");
    assert_eq!(c.on_text_input("s"), Some(CmdResult::NeedPoint));
    assert_eq!(c.prompt(), "TEXTEDIT Select an annotation object or [Undo Mode]:");
    assert_eq!(c.on_editor_closed(true), CmdResult::Cancel);
    assert_eq!(c.prompt(), "TEXTEDIT Select an annotation object or [Undo Mode] <exit>:");
}

#[test]
fn textedit_multiple_mode_loops_and_undo_counts_down() {
    let mut c = TexteditCommand::new(false);
    assert_eq!(c.on_entity_pick(0), CmdResult::NeedPoint);
    assert_eq!(c.on_entity_pick(42), CmdResult::SuspendForTextEdit { handle: 42 });
    assert_eq!(c.on_editor_closed(true), CmdResult::NeedPoint);
    assert_eq!(c.on_editor_closed(false), CmdResult::NeedPoint);
    assert_eq!(c.on_text_input("Undo"), Some(CmdResult::UndoDocument));
    assert_eq!(c.on_text_input("u"), Some(CmdResult::NeedPoint));
    assert_eq!(c.on_text_input(""), Some(CmdResult::NeedPoint));
    assert_eq!(c.on_enter(), CmdResult::NeedPoint);
    c.on_editor_closed(true);
    assert_eq!(c.on_text_input("   "), Some(CmdResult::Cancel));
    assert_eq!(c.on_enter(), CmdResult::Cancel);
    assert_eq!(c.on_escape(), CmdResult::Cancel);
    assert_eq!(c.on_point(), CmdResult::NeedPoint);
    assert!(c.wants_text_input());
}

#[test]
fn textedit_mode_question_accepts_digits_and_words() {
    let mut c = TexteditCommand::new(true);
    c.on_text_input("m");
    assert_eq!(c.on_text_input("0"), Some(CmdResult::NeedPoint));
    assert_eq!(c.prompt(), "TEXTEDIT Select an annotation object or [Undo Mode]:");
    c.on_text_input("M");
    assert_eq!(c.prompt(), "TEXTEDIT Enter text edit mode [Single/Multiple] <Multiple>:");
    assert_eq!(c.on_text_input("bogus"), Some(CmdResult::NeedPoint));
    assert_eq!(c.prompt(), "TEXTEDIT Enter text edit mode [Single/Multiple] <Multiple>:");
    assert_eq!(c.on_enter(), CmdResult::NeedPoint);
    assert!(c.needs_entity_pick());
    let _ = (Step::PickObject, TextEditMode::Single);
}

#[test]
fn texteditmode_sets_or_refuses() {
    let mut c = TexteditmodeCommand::new(true);
    assert_eq!(c.name(), "TEXTEDITMODE");
    assert_eq!(c.prompt(), "TEXTEDITMODE Enter new value for TEXTEDITMODE <1>:");
    assert_eq!(TexteditmodeCommand::new(false).prompt(), "TEXTEDITMODE Enter new value for TEXTEDITMODE <0>:");
    assert_eq!(c.on_text_input(" single "), Some(CmdResult::SetTexteditMode(true)));
    assert_eq!(c.on_text_input("MULTIPLE"), Some(CmdResult::SetTexteditMode(false)));
    assert_eq!(c.on_text_input("0"), Some(CmdResult::SetTexteditMode(false)));
    assert_eq!(c.on_text_input(""), Some(CmdResult::Cancel));
    assert_eq!(
        c.on_text_input("2"),
        Some(CmdResult::Measurement("Requires 0 OR 1 OR MULTIPLE OR SINGLE".to_string()))
    );
    assert_eq!(c.dyn_field(), DynField::Scalar);
    assert_eq!(c.on_enter(), CmdResult::Cancel);
    assert_eq!(DynField::default(), DynField::Point);
}

#[test]
fn explode_command_only_ends() {
    let mut c = ExplodeCommand::new();
    assert_eq!(c.name(), "EXPLODE");
    assert_eq!(c.prompt(), "EXPLODE  Select objects to explode:");
    assert_eq!(c.on_point(), CmdResult::Cancel);
    assert_eq!(c.on_enter(), CmdResult::Cancel);
    assert_eq!(c.on_escape(), CmdResult::Cancel);
}

#[test]
fn ribbon_tools_fire_their_commands() {
    let t = opencadstudio::modules::draw::line::tool();
    assert_eq!(t.id, "LINE");
    assert_eq!(t.label, "Line");
    assert_eq!(t.icon, IconKind::Svg("line.svg"));
    assert_eq!(t.event, ModuleEvent::Command("LINE".to_string()));
    for (t, id) in [
        (opencadstudio::modules::draw::explode::tool(), "EXPLODE"),
        (opencadstudio::modules::annotate::text::tool(), "TEXT"),
        (opencadstudio::modules::annotate::mtext::tool(), "MTEXT"),
        (opencadstudio::modules::annotate::leader_cmd::tool(), "LEADER"),
        (opencadstudio::modules::annotate::mleader_cmd::tool(), "MLEADER"),
        (opencadstudio::modules::home::rotate::tool(), "ROTATE"),
    ] {
        assert_eq!(t.id, id);
        assert_eq!(t.event, ModuleEvent::Command(id.to_string()));
    }
}

#[test]
fn leader_annotation_type_answers() {
    assert_eq!(parse_ct("n"), LeaderCreationType::NoAnnotation);
    assert_eq!(parse_ct("None"), LeaderCreationType::NoAnnotation);
    assert_eq!(parse_ct("BLOCK"), LeaderCreationType::WithBlock);
    assert_eq!(parse_ct("tl"), LeaderCreationType::WithTolerance);
    assert_eq!(parse_ct("Tolerance"), LeaderCreationType::WithTolerance);
    assert_eq!(parse_ct("t"), LeaderCreationType::WithText);
    assert_eq!(parse_ct(""), LeaderCreationType::WithText);
}

// ── solids, properties, cli ────────────────────────────────────────────────

#[test]
fn acis_sizes_read_as_format_writes_them() {
    assert_eq!(acis_size_str(false, 10, 20, true), "none");
    assert_eq!(acis_size_str(true, 10, 2048, true), "2048 bytes (SAB)");
    assert_eq!(acis_size_str(true, 0, 2048, false), "0 bytes (SAT)");
    assert_eq!(decimal(0), "0");
    assert_eq!(decimal(usize::MAX), usize::MAX.to_string());
    assert_eq!(decimal(1000000007), "1000000007");
}

#[test]
fn property_rows() {
    let p = bool_toggle("Frame", "frame", true);
    assert_eq!(p.label, "Frame");
    assert_eq!(p.value, PropValue::BoolToggle { field: "frame", value: true });
    let c = choice("Content Type", "content_type", "MText", &["None", "MText", "Block", "Tolerance"]);
    assert_eq!(c.field, "content_type");
    assert_eq!(
        c.value,
        PropValue::Choice {
            selected: "MText".to_string(),
            options: vec!["None".into(), "MText".into(), "Block".into(), "Tolerance".into()],
        }
    );
}

#[test]
fn gui_config_defaults_when_unset() {
    let g = gui_config(None);
    assert!(g.file.is_none() && !g.new && !g.read_only && g.script_lines.is_empty());
    let set = GuiConfig {
        file: Some(std::path::PathBuf::from("/tmp/a.dxf")),
        new: true,
        read_only: true,
        script_lines: vec!["LINE".into()],
    };
    let h = gui_config(Some(&set));
    assert!(h.new && h.read_only);
    assert_eq!(h.file, Some(std::path::PathBuf::from("/tmp/a.dxf")));
    assert_eq!(h.script_lines, vec!["LINE".to_string()]);
    let c = Cli::default();
    assert!(c.file.is_none() && !c.serve && c.port.is_none());
}

// ── transport ──────────────────────────────────────────────────────────────

#[test]
fn frames_carry_little_endian_length() {
    let f = encode_frame(&vec![7u8, 8, 9]).unwrap();
    assert_eq!(f, vec![3, 0, 0, 0, 0, 0, 0, 0, 7, 8, 9]);
    let mut h = [0u8; 8];
    h.copy_from_slice(&f[..8]);
    assert_eq!(frame_len(&h), Ok(3));
    assert_eq!(&f[8..], &[7, 8, 9]);
    let big = 300usize;
    let f2 = encode_frame(&vec![1u8; big]).unwrap();
    assert_eq!(&f2[..2], &[44, 1]);
}

#[test]
fn frame_limits_are_enforced() {
    assert_eq!(frame_len(&[0u8; 8]), Err(TransportError::Empty));
    let too = (MAX_MESSAGE_SIZE as u64 + 1).to_le_bytes();
    assert_eq!(frame_len(&too), Err(TransportError::TooLarge(MAX_MESSAGE_SIZE + 1)));
    let max = (MAX_MESSAGE_SIZE as u64).to_le_bytes();
    assert_eq!(frame_len(&max), Ok(MAX_MESSAGE_SIZE));
    assert_eq!(MAX_MESSAGE_SIZE, 64 * 1024 * 1024);
    let huge = vec![0u8; MAX_MESSAGE_SIZE + 1];
    assert_eq!(encode_frame(&huge), Err(TransportError::TooLarge(MAX_MESSAGE_SIZE + 1)));
}

// ── MText formatting and text helpers ──────────────────────────────────────

#[test]
fn toolbar_codes() {
    let b = fmt_codes(MTextFmt::Bold, "  ");
    assert_eq!((b.prefix.as_str(), b.suffix.as_str(), b.case), ("\\fGothic;", "\\fStandard;", None));
    let b2 = fmt_codes(MTextFmt::Bold, "romans");
    assert_eq!(b2.suffix, "\\fromans;");
    let i = fmt_codes(MTextFmt::Italic, "");
    assert_eq!((i.prefix.as_str(), i.suffix.as_str()), ("\\Q15;", "\\Q0;"));
    let u = fmt_codes(MTextFmt::Underline, "");
    assert_eq!((u.prefix.as_str(), u.suffix.as_str()), ("\\L", "\\l"));
    let o = fmt_codes(MTextFmt::Overline, "");
    assert_eq!((o.prefix.as_str(), o.suffix.as_str()), ("\\O", "\\o"));
    let k = fmt_codes(MTextFmt::Strike, "");
    assert_eq!((k.prefix.as_str(), k.suffix.as_str()), ("\\K", "\\k"));
    assert_eq!(fmt_codes(MTextFmt::Uppercase, "").case, Some(true));
    assert_eq!(fmt_codes(MTextFmt::Lowercase, "x").case, Some(false));
    assert_eq!(ParaAlign::Justify.code(), "j");
    assert_eq!(align_code(ParaAlign::Center), "\\pxqc;");
}

#[test]
fn dxf_special_characters() {
    assert_eq!(resolve_dxf_special_chars("45%%d"), "45°");
    assert_eq!(resolve_dxf_special_chars("%%P0.5 %%C10"), "±0.5 ⌀10");
    assert_eq!(resolve_dxf_special_chars("%%uA%%o"), "A");
    assert_eq!(resolve_dxf_special_chars("100%%%%"), "100%");
    assert_eq!(resolve_dxf_special_chars("100%%%"), "100%%%");
    assert_eq!(resolve_dxf_special_chars("%%%a%%%%%"), "%%%a%%");
    assert_eq!(resolve_dxf_special_chars("%%065"), "A");
    assert_eq!(resolve_dxf_special_chars("%%12x"), "%%12x");
    assert_eq!(resolve_dxf_special_chars("%%x"), "%%x");
    assert_eq!(resolve_dxf_special_chars("50%"), "50%");
}

#[test]
fn font_stems_and_decorations() {
    assert_eq!(font_stem("C:\\fonts\\arial.ttf"), "arial");
    assert_eq!(font_stem("a/b/romans.shx"), "romans");
    assert_eq!(font_stem("arial"), "arial");
    let d = Decorations { underline: true, overline: false, strike: true };
    assert_eq!(decorated("ab", &d), "\\L\\Kab\\l\\k");
    let none = Decorations { underline: false, overline: false, strike: false };
    assert_eq!(decorated("ab", &none), "ab");
    assert_eq!(
        glyph_atoms("ab  c"),
        vec![AtomKind::Word("ab".into()), AtomKind::Space, AtomKind::Space, AtomKind::Word("c".into())]
    );
}

#[test]
fn string_order_is_code_point_order() {
    assert!(str_lt("a", "b"));
    assert!(str_lt("a", "ab"));
    assert!(!str_lt("ab", "ab"));
    assert!(str_lt("Z", "a"));
    assert!(str_lt("z", "é"));
    assert!(!str_lt("é", "z"));
}

// ── DIVIDE / JOIN ─────────────────────────────────────────────────────────

#[test]
fn divide_asks_object_then_count() {
    let mut c = DivideCommand::new();
    assert_eq!(c.name(), "DIVIDE");
    assert_eq!(c.prompt(), "DIVIDE  Select object to divide:");
    assert!(c.needs_entity_pick());
    assert!(!c.wants_text_input());
    assert_eq!(c.on_text_input("5"), None);
    assert_eq!(c.on_entity_pick(0), CmdResult::NeedPoint);
    assert!(c.needs_entity_pick());
    assert_eq!(c.on_entity_pick(77), CmdResult::NeedPoint);
    assert_eq!(c.prompt(), "DIVIDE  Enter number of segments:");
    assert!(c.wants_text_input());
    assert_eq!(c.on_text_input("1"), None);
    assert_eq!(c.on_text_input("x"), None);
    assert_eq!(c.on_text_input("-3"), None);
    assert!(c.wants_text_input());
    assert_eq!(c.on_text_input(" +4 "), Some(CmdResult::DivideEntity { handle: 77, n: 4 }));
    assert!(!c.wants_text_input());
    assert_eq!(c.on_enter(), CmdResult::Cancel);
    let mut big = DivideCommand::new();
    big.on_entity_pick(1);
    assert_eq!(big.on_text_input("99999999999999999999999"), None);
    let max = usize::MAX.to_string();
    assert_eq!(big.on_text_input(&max), Some(CmdResult::DivideEntity { handle: 1, n: usize::MAX }));
}

#[test]
fn join_needs_two_objects() {
    let mut c = JoinCommand::new();
    assert_eq!(c.name(), "JOIN");
    assert!(c.is_selection_gathering());
    assert_eq!(c.prompt(), "JOIN  Select objects to join (0 selected, Enter to apply):");
    assert_eq!(c.on_selection_complete(vec![5]), CmdResult::NeedPoint);
    assert_eq!(c.on_enter(), CmdResult::Cancel);
    assert!(c.is_selection_gathering());
    c.on_selection_complete(vec![5, 9, 12]);
    assert_eq!(c.prompt(), "JOIN  Select objects to join (3 selected, Enter to apply):");
    assert_eq!(c.on_enter(), CmdResult::JoinEntities(vec![5, 9, 12]));
    assert!(!c.is_selection_gathering());
}

// ── panel labels ──────────────────────────────────────────────────────────

#[test]
fn panel_labels_and_attachment_roundtrip() {
    assert_eq!(content_type_str(LeaderContentType::NoContent), "None");
    assert_eq!(content_type_str(LeaderContentType::MText), "MText");
    assert_eq!(path_type_str(MultiLeaderPathType::StraightLineSegments), "Straight");
    assert_eq!(text_halign_str(TextHorizontalAlignment::Fit), "Fit");
    assert_eq!(text_valign_str(TextVerticalAlignment::Baseline), "Baseline");
    for a in [
        TextAttachmentType::TopOfTopLine,
        TextAttachmentType::MiddleOfTopLine,
        TextAttachmentType::MiddleOfText,
        TextAttachmentType::MiddleOfBottomLine,
        TextAttachmentType::BottomOfBottomLine,
        TextAttachmentType::BottomLine,
    ] {
        assert_eq!(parse_attachment(attachment_str(a)), a);
    }
    assert_eq!(attachment_str(TextAttachmentType::CenterOfText), "Other");
    assert_eq!(parse_attachment("Other"), TextAttachmentType::MiddleOfText);
    assert_eq!(parse_attachment("top of top"), TextAttachmentType::MiddleOfText);
}

#[test]
fn editor_prefix_and_justify_menu() {
    assert_eq!(font_color_prefix(" romans ", 256), "\\fromans;");
    assert_eq!(font_color_prefix("", 1), "\\C1;");
    assert_eq!(font_color_prefix("a", 65535), "\\fa;\\C65535;");
    assert_eq!(font_color_prefix("  ", 256), "");
    let all = justify_choices();
    assert_eq!(all.len(), 9);
    assert_eq!(all[0], AttachmentPoint::TopLeft);
    assert_eq!(justify_label(all[4]), "Middle Center");
    assert_eq!(justify_label(AttachmentPoint::BottomRight), "Bottom Right");
}

#[test]
fn blank_lines_trim_from_both_ends() {
    assert!(line_is_blank(&vec![]));
    assert!(line_is_blank(&vec![MTextRunKind::Glyphs(" \u{a0} ".into()), MTextRunKind::Glyphs(String::new())]));
    assert!(!line_is_blank(&vec![MTextRunKind::Glyphs(" ".into()), MTextRunKind::Tab]));
    assert!(!line_is_blank(&vec![MTextRunKind::Glyphs(" x ".into())]));
    assert_eq!(blank_trim_bounds(&vec![true, false, true, false, true]), (1, 4));
    assert_eq!(blank_trim_bounds(&vec![true, true]), (0, 0));
    assert_eq!(blank_trim_bounds(&vec![]), (0, 0));
    assert_eq!(blank_trim_bounds(&vec![false]), (0, 1));
}

#[test]
fn autocomplete_lists_every_registered_name() {
    let names = all_registered_command_names();
    assert_eq!(names.len(), 50);
    for n in ["L", "TEDIT", "TEXTEDITMODE", "SS_PROFILE", "DIV", "JOIN", "EXPORTSVG"] {
        assert!(names.contains(&n), "missing {n}");
    }
    assert_eq!(names_of(&registrations()), names);
    let regs = vec![CommandRegistration { names: &["A", "B"] }, CommandRegistration { names: &[] }, CommandRegistration { names: &["C"] }];
    assert_eq!(names_of(&regs), vec!["A", "B", "C"]);
}

#[test]
fn stacks_are_written_inline() {
    let mk = |n: &str, d: &str, t| StackingData { numerator: n.into(), denominator: d.into(), stacking_type: t };
    assert_eq!(stack_text(&mk("1", "2", StackingType::Horizontal)), "1/2");
    assert_eq!(stack_text(&mk("1", "2", StackingType::Diagonal)), "1/2");
    assert_eq!(stack_text(&mk("x", "y", StackingType::Limit)), "x^y");
    assert_eq!(stack_text(&mk("3", "", StackingType::Limit)), "3");
}
