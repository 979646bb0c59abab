//! The inline codes the MText formatting toolbar inserts around a selection.

use vstd::prelude::*;
use crate::entities::solid3d::{decimal, decimal_spec};
use crate::text_util::{chars_of, push_str, trim, trim_bounds};

verus! {

/// Character-level format toggles applied to the current selection by the
/// toolbar. Each maps to a DXF MTEXT inline code understood by the renderer.
#[derive(Clone, Copy, Debug, PartialEq, Eq, Structural)]
pub enum MTextFmt {
    Bold,
    Italic,
    Underline,
    Overline,
    Strike,
    Uppercase,
    Lowercase,
}

/// Paragraph alignment written as `\pxq<l|c|r|j>;`.
#[derive(Clone, Copy, Debug, PartialEq, Eq, Structural)]
pub enum ParaAlign {
    Left,
    Center,
    Right,
    Justify,
}

/// The letter of an alignment in the `\pxq` code.
pub open spec fn align_letter(a: ParaAlign) -> Seq<char> {
    match a {
        ParaAlign::Left => seq!['l'],
        ParaAlign::Center => seq!['c'],
        ParaAlign::Right => seq!['r'],
        ParaAlign::Justify => seq!['j'],
    }
}

impl ParaAlign {
    /// The letter of this alignment in the `\pxq` code.
    pub fn code(self) -> (r: &'static str)
        ensures
            r@ == align_letter(self),
    {
        match self {
            ParaAlign::Left => {
                proof {
                    reveal_strlit("l");
                }
                "l"
            },
            ParaAlign::Center => {
                proof {
                    reveal_strlit("c");
                }
                "c"
            },
            ParaAlign::Right => {
                proof {
                    reveal_strlit("r");
                }
                "r"
            },
            ParaAlign::Justify => {
                proof {
                    reveal_strlit("j");
                }
                "j"
            },
        }
    }
}

/// The paragraph-alignment code inserted before the selection: `\pxq<x>;`.
pub fn align_code(align: ParaAlign) -> (r: String)
    ensures
        r@ == "\\pxq"@ + align_letter(align) + ";"@,
{
    let mut s = "\\pxq".to_owned();
    push_str(&mut s, align.code());
    push_str(&mut s, ";");
    s
}

/// What a format toggle does to the selection: text inserted before and
/// after it, and a case change (`Some(true)` upper, `Some(false)` lower).
pub struct FmtCodes {
    pub prefix: String,
    pub suffix: String,
    pub case: Option<bool>,
}

/// The font a Bold run switches back to: the editor's global font, or
/// "Standard" when none is set.
pub open spec fn restore_font(font: Seq<char>) -> Seq<char> {
    if trim(font).len() == 0 {
        "Standard"@
    } else {
        font
    }
}

/// The codes for one toolbar toggle. The stroke-font renderer has no true
/// bold or italic, so Bold switches the run to the heavier Gothic stroke font
/// (and back to `font` after it), and Italic applies an oblique slant.
pub fn fmt_codes(kind: MTextFmt, font: &str) -> (r: FmtCodes)
    ensures
        kind == MTextFmt::Bold ==> r.prefix@ == "\\fGothic;"@ && r.suffix@ == "\\f"@ + restore_font(
            font@,
        ) + ";"@ && r.case is None,
        kind == MTextFmt::Italic ==> r.prefix@ == "\\Q15;"@ && r.suffix@ == "\\Q0;"@ && r.case is None,
        kind == MTextFmt::Underline ==> r.prefix@ == "\\L"@ && r.suffix@ == "\\l"@ && r.case is None,
        kind == MTextFmt::Overline ==> r.prefix@ == "\\O"@ && r.suffix@ == "\\o"@ && r.case is None,
        kind == MTextFmt::Strike ==> r.prefix@ == "\\K"@ && r.suffix@ == "\\k"@ && r.case is None,
        kind == MTextFmt::Uppercase ==> r.prefix@.len() == 0 && r.suffix@.len() == 0 && r.case
            == Some(true),
        kind == MTextFmt::Lowercase ==> r.prefix@.len() == 0 && r.suffix@.len() == 0 && r.case
            == Some(false),
{
    match kind {
        MTextFmt::Bold => {
            let v = chars_of(font);
            let (a, b) = trim_bounds(&v, 0, v.len());
            proof {
                assert(v@.subrange(0, v@.len() as int) =~= v@);
            }
            let mut suffix = "\\f".to_owned();
            if a == b {
                push_str(&mut suffix, "Standard");
            } else {
                push_str(&mut suffix, font);
            }
            push_str(&mut suffix, ";");
            FmtCodes { prefix: "\\fGothic;".to_owned(), suffix, case: None }
        },
        MTextFmt::Italic => FmtCodes {
            prefix: "\\Q15;".to_owned(),
            suffix: "\\Q0;".to_owned(),
            case: None,
        },
        MTextFmt::Underline => FmtCodes {
            prefix: "\\L".to_owned(),
            suffix: "\\l".to_owned(),
            case: None,
        },
        MTextFmt::Overline => FmtCodes {
            prefix: "\\O".to_owned(),
            suffix: "\\o".to_owned(),
            case: None,
        },
        MTextFmt::Strike => FmtCodes {
            prefix: "\\K".to_owned(),
            suffix: "\\k".to_owned(),
            case: None,
        },
        MTextFmt::Uppercase => FmtCodes { prefix: String::new(), suffix: String::new(), case: Some(true) },
        MTextFmt::Lowercase => FmtCodes { prefix: String::new(), suffix: String::new(), case: Some(false) },
    }
}

/// Where an MText's text block sits relative to its insertion point.
#[derive(Clone, Copy, Debug, PartialEq, Eq, Structural)]
pub enum AttachmentPoint {
    TopLeft,
    TopCenter,
    TopRight,
    MiddleLeft,
    MiddleCenter,
    MiddleRight,
    BottomLeft,
    BottomCenter,
    BottomRight,
}

/// The justification choices the editor offers, in menu order.
pub fn justify_choices() -> (r: [AttachmentPoint; 9])
    ensures
        r@ == seq![
            AttachmentPoint::TopLeft,
            AttachmentPoint::TopCenter,
            AttachmentPoint::TopRight,
            AttachmentPoint::MiddleLeft,
            AttachmentPoint::MiddleCenter,
            AttachmentPoint::MiddleRight,
            AttachmentPoint::BottomLeft,
            AttachmentPoint::BottomCenter,
            AttachmentPoint::BottomRight,
        ],
{
    let r = [
        AttachmentPoint::TopLeft,
        AttachmentPoint::TopCenter,
        AttachmentPoint::TopRight,
        AttachmentPoint::MiddleLeft,
        AttachmentPoint::MiddleCenter,
        AttachmentPoint::MiddleRight,
        AttachmentPoint::BottomLeft,
        AttachmentPoint::BottomCenter,
        AttachmentPoint::BottomRight,
    ];
    assert(r@ =~= seq![
        AttachmentPoint::TopLeft,
        AttachmentPoint::TopCenter,
        AttachmentPoint::TopRight,
        AttachmentPoint::MiddleLeft,
        AttachmentPoint::MiddleCenter,
        AttachmentPoint::MiddleRight,
        AttachmentPoint::BottomLeft,
        AttachmentPoint::BottomCenter,
        AttachmentPoint::BottomRight,
    ]);
    r
}

/// The label a justification choice shows in the editor's menu.
pub fn justify_label(p: AttachmentPoint) -> (r: &'static str)
    ensures
        r@ == match p {
            AttachmentPoint::TopLeft => "Top Left"@,
            AttachmentPoint::TopCenter => "Top Center"@,
            AttachmentPoint::TopRight => "Top Right"@,
            AttachmentPoint::MiddleLeft => "Middle Left"@,
            AttachmentPoint::MiddleCenter => "Middle Center"@,
            AttachmentPoint::MiddleRight => "Middle Right"@,
            AttachmentPoint::BottomLeft => "Bottom Left"@,
            AttachmentPoint::BottomCenter => "Bottom Center"@,
            AttachmentPoint::BottomRight => "Bottom Right"@,
        },
{
    match p {
        AttachmentPoint::TopLeft => "Top Left",
        AttachmentPoint::TopCenter => "Top Center",
        AttachmentPoint::TopRight => "Top Right",
        AttachmentPoint::MiddleLeft => "Middle Left",
        AttachmentPoint::MiddleCenter => "Middle Center",
        AttachmentPoint::MiddleRight => "Middle Right",
        AttachmentPoint::BottomLeft => "Bottom Left",
        AttachmentPoint::BottomCenter => "Bottom Center",
        AttachmentPoint::BottomRight => "Bottom Right",
    }
}

/// The leading codes for the editor's global font and colour: `\f<font>;`
/// when a font is set (trimmed), then `\C<aci>;` unless the colour is
/// ByLayer (256).
pub open spec fn font_color_prefix_spec(font: Seq<char>, color_aci: u16) -> Seq<char> {
    (if trim(font).len() > 0 {
        "\\f"@ + trim(font) + ";"@
    } else {
        Seq::empty()
    }) + (if color_aci != 256 {
        "\\C"@ + decimal_spec(color_aci as nat) + ";"@
    } else {
        Seq::empty()
    })
}

/// The leading font and colour codes of the composed MText value (the
/// numeric oblique, width and spacing codes follow them).
pub fn font_color_prefix(font: &str, color_aci: u16) -> (r: String)
    ensures
        r@ == font_color_prefix_spec(font@, color_aci),
{
    let v = chars_of(font);
    let (a, b) = trim_bounds(&v, 0, v.len());
    proof {
        assert(v@.subrange(0, v@.len() as int) =~= v@);
    }
    let mut s = String::new();
    if a < b {
        push_str(&mut s, "\\f");
        let f = crate::text_util::string_of_range(&v, a, b);
        push_str(&mut s, f.as_str());
        push_str(&mut s, ";");
    }
    let ghost mid = s@;
    if color_aci != 256 {
        push_str(&mut s, "\\C");
        let n = decimal(color_aci as usize);
        push_str(&mut s, n.as_str());
        push_str(&mut s, ";");
    }
    proof {
        assert(mid =~= (if trim(font@).len() > 0 {
            "\\f"@ + trim(font@) + ";"@
        } else {
            Seq::empty()
        }));
    }
    s
}

} // verus!
