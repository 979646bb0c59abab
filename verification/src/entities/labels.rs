//! The names the properties panel shows for entity settings, and reading
//! them back from the panel.

use vstd::prelude::*;
use crate::text_util::str_eq;

verus! {

/// What a multileader carries at its end.
#[derive(Clone, Copy, Debug, PartialEq, Eq, Structural)]
pub enum LeaderContentType {
    NoContent,
    Block,
    MText,
    Tolerance,
}

/// How a multileader's leader line is drawn.
#[derive(Clone, Copy, Debug, PartialEq, Eq, Structural)]
pub enum MultiLeaderPathType {
    Invisible,
    StraightLineSegments,
    Spline,
}

/// Where a multileader's text attaches to its landing.
#[derive(Clone, Copy, Debug, PartialEq, Eq, Structural)]
pub enum TextAttachmentType {
    TopOfTopLine,
    MiddleOfTopLine,
    MiddleOfText,
    MiddleOfBottomLine,
    BottomOfBottomLine,
    BottomLine,
    BottomOfTopLineUnderlineBottomLine,
    BottomOfTopLineUnderlineTopLine,
    BottomOfTopLineUnderlineAll,
    CenterOfText,
    CenterOfTextOverline,
}

/// Horizontal alignment of single-line text.
#[derive(Clone, Copy, Debug, PartialEq, Eq, Structural)]
pub enum TextHorizontalAlignment {
    Left,
    Center,
    Right,
    Aligned,
    Middle,
    Fit,
}

/// Vertical alignment of single-line text.
#[derive(Clone, Copy, Debug, PartialEq, Eq, Structural)]
pub enum TextVerticalAlignment {
    Baseline,
    Bottom,
    Middle,
    Top,
}

/// The panel name of a content type.
pub fn content_type_str(ct: LeaderContentType) -> (r: &'static str)
    ensures
        r@ == match ct {
            LeaderContentType::NoContent => "None"@,
            LeaderContentType::Block => "Block"@,
            LeaderContentType::MText => "MText"@,
            LeaderContentType::Tolerance => "Tolerance"@,
        },
{
    match ct {
        LeaderContentType::NoContent => "None",
        LeaderContentType::Block => "Block",
        LeaderContentType::MText => "MText",
        LeaderContentType::Tolerance => "Tolerance",
    }
}

/// The panel name of a path type.
pub fn path_type_str(pt: MultiLeaderPathType) -> (r: &'static str)
    ensures
        r@ == match pt {
            MultiLeaderPathType::Invisible => "Invisible"@,
            MultiLeaderPathType::StraightLineSegments => "Straight"@,
            MultiLeaderPathType::Spline => "Spline"@,
        },
{
    match pt {
        MultiLeaderPathType::Invisible => "Invisible",
        MultiLeaderPathType::StraightLineSegments => "Straight",
        MultiLeaderPathType::Spline => "Spline",
    }
}

/// The panel name of a text attachment: the six the panel offers by name,
/// "Other" for the rest.
pub open spec fn attachment_name(a: TextAttachmentType) -> Seq<char> {
    match a {
        TextAttachmentType::TopOfTopLine => "Top of Top"@,
        TextAttachmentType::MiddleOfTopLine => "Mid of Top"@,
        TextAttachmentType::MiddleOfText => "Mid of Text"@,
        TextAttachmentType::MiddleOfBottomLine => "Mid of Bot"@,
        TextAttachmentType::BottomOfBottomLine => "Bot of Bot"@,
        TextAttachmentType::BottomLine => "Bottom Line"@,
        _ => "Other"@,
    }
}

/// The panel name of a text attachment.
pub fn attachment_str(a: TextAttachmentType) -> (r: &'static str)
    ensures
        r@ == attachment_name(a),
{
    match a {
        TextAttachmentType::TopOfTopLine => "Top of Top",
        TextAttachmentType::MiddleOfTopLine => "Mid of Top",
        TextAttachmentType::MiddleOfText => "Mid of Text",
        TextAttachmentType::MiddleOfBottomLine => "Mid of Bot",
        TextAttachmentType::BottomOfBottomLine => "Bot of Bot",
        TextAttachmentType::BottomLine => "Bottom Line",
        _ => "Other",
    }
}

/// The attachment a panel name selects; anything unknown means the middle
/// of the text.
pub open spec fn attachment_named(s: Seq<char>) -> TextAttachmentType {
    if s == "Top of Top"@ {
        TextAttachmentType::TopOfTopLine
    } else if s == "Mid of Top"@ {
        TextAttachmentType::MiddleOfTopLine
    } else if s == "Mid of Bot"@ {
        TextAttachmentType::MiddleOfBottomLine
    } else if s == "Bot of Bot"@ {
        TextAttachmentType::BottomOfBottomLine
    } else if s == "Bottom Line"@ {
        TextAttachmentType::BottomLine
    } else {
        TextAttachmentType::MiddleOfText
    }
}

/// Read a text attachment back from its panel name.
pub fn parse_attachment(s: &str) -> (r: TextAttachmentType)
    ensures
        r == attachment_named(s@),
{
    if str_eq(s, "Top of Top") {
        TextAttachmentType::TopOfTopLine
    } else if str_eq(s, "Mid of Top") {
        TextAttachmentType::MiddleOfTopLine
    } else if str_eq(s, "Mid of Bot") {
        TextAttachmentType::MiddleOfBottomLine
    } else if str_eq(s, "Bot of Bot") {
        TextAttachmentType::BottomOfBottomLine
    } else if str_eq(s, "Bottom Line") {
        TextAttachmentType::BottomLine
    } else {
        TextAttachmentType::MiddleOfText
    }
}

/// Reading back the name the panel shows selects the same attachment, for
/// every attachment the panel names (all but the "Other" ones).
pub proof fn lemma_attachment_roundtrip(a: TextAttachmentType)
    requires
        attachment_name(a) != "Other"@,
    ensures
        attachment_named(attachment_name(a)) == a,
{
    reveal_strlit("Top of Top");
    reveal_strlit("Mid of Top");
    reveal_strlit("Mid of Text");
    reveal_strlit("Mid of Bot");
    reveal_strlit("Bot of Bot");
    reveal_strlit("Bottom Line");
    reveal_strlit("Other");
    let n = attachment_name(a);
    match a {
        TextAttachmentType::MiddleOfTopLine => {
            assert(n[0] != "Top of Top"@[0]);
        },
        TextAttachmentType::MiddleOfText => {
            assert(n.len() != "Top of Top"@.len());
            assert(n[0] != "Bottom Line"@[0]);
        },
        TextAttachmentType::MiddleOfBottomLine => {
            assert(n[0] != "Top of Top"@[0]);
            assert(n[7] != "Mid of Top"@[7]);
        },
        TextAttachmentType::BottomOfBottomLine => {
            assert(n[0] != "Top of Top"@[0]);
            assert(n[0] != "Mid of Top"@[0]);
            assert(n[0] != "Mid of Bot"@[0]);
        },
        TextAttachmentType::BottomLine => {
            assert(n.len() != "Top of Top"@.len());
        },
        _ => {},
    }
}

/// The panel name of a horizontal alignment.
pub fn text_halign_str(a: TextHorizontalAlignment) -> (r: &'static str)
    ensures
        r@ == match a {
            TextHorizontalAlignment::Left => "Left"@,
            TextHorizontalAlignment::Center => "Center"@,
            TextHorizontalAlignment::Right => "Right"@,
            TextHorizontalAlignment::Aligned => "Aligned"@,
            TextHorizontalAlignment::Middle => "Middle"@,
            TextHorizontalAlignment::Fit => "Fit"@,
        },
{
    match a {
        TextHorizontalAlignment::Left => "Left",
        TextHorizontalAlignment::Center => "Center",
        TextHorizontalAlignment::Right => "Right",
        TextHorizontalAlignment::Aligned => "Aligned",
        TextHorizontalAlignment::Middle => "Middle",
        TextHorizontalAlignment::Fit => "Fit",
    }
}

/// The panel name of a vertical alignment.
pub fn text_valign_str(a: TextVerticalAlignment) -> (r: &'static str)
    ensures
        r@ == match a {
            TextVerticalAlignment::Baseline => "Baseline"@,
            TextVerticalAlignment::Bottom => "Bottom"@,
            TextVerticalAlignment::Middle => "Middle"@,
            TextVerticalAlignment::Top => "Top"@,
        },
{
    match a {
        TextVerticalAlignment::Baseline => "Baseline",
        TextVerticalAlignment::Bottom => "Bottom",
        TextVerticalAlignment::Middle => "Middle",
        TextVerticalAlignment::Top => "Top",
    }
}

} // verus!
