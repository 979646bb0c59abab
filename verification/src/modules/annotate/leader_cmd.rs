//! LEADER: Leader line with an annotation.

use vstd::prelude::*;
use crate::command::{is_keyword, keyword_at};
use crate::ribbon::{command_tool, is_command_tool, ToolDef};
use crate::text_util::chars_of;

verus! {

/// The ribbon tool that runs LEADER.
pub fn tool() -> (t: ToolDef)
    ensures
        is_command_tool(t, "LEADER"@, "Leader"@, "leader.svg"@),
{
    command_tool("LEADER", "Leader", "leader.svg")
}

/// What a leader carries at its end.
#[derive(Clone, Copy, Debug, PartialEq, Eq, Structural)]
pub enum LeaderCreationType {
    WithText,
    WithTolerance,
    WithBlock,
    NoAnnotation,
}

/// The annotation an answer to "annotation type" asks for (any case):
/// N/NONE, B/BLOCK, TL/TOLERANCE; anything else means text.
pub open spec fn creation_type(s: Seq<char>) -> LeaderCreationType {
    if is_keyword(s, seq!['n']) || is_keyword(s, seq!['n', 'o', 'n', 'e']) {
        LeaderCreationType::NoAnnotation
    } else if is_keyword(s, seq!['b']) || is_keyword(s, seq!['b', 'l', 'o', 'c', 'k']) {
        LeaderCreationType::WithBlock
    } else if is_keyword(s, seq!['t', 'l']) || is_keyword(
        s,
        seq!['t', 'o', 'l', 'e', 'r', 'a', 'n', 'c', 'e'],
    ) {
        LeaderCreationType::WithTolerance
    } else {
        LeaderCreationType::WithText
    }
}

/// Read the (already trimmed) answer to the annotation-type question.
pub fn parse_ct(s: &str) -> (r: LeaderCreationType)
    ensures
        r == creation_type(s@),
{
    let v = chars_of(s);
    let n = v.len();
    proof {
        assert(v@.subrange(0, n as int) =~= v@);
    }
    if keyword_at(&v, 0, n, &['n']) || keyword_at(&v, 0, n, &['n', 'o', 'n', 'e']) {
        LeaderCreationType::NoAnnotation
    } else if keyword_at(&v, 0, n, &['b']) || keyword_at(&v, 0, n, &['b', 'l', 'o', 'c', 'k']) {
        LeaderCreationType::WithBlock
    } else if keyword_at(&v, 0, n, &['t', 'l']) || keyword_at(
        &v,
        0,
        n,
        &['t', 'o', 'l', 'e', 'r', 'a', 'n', 'c', 'e'],
    ) {
        LeaderCreationType::WithTolerance
    } else {
        LeaderCreationType::WithText
    }
}

} // verus!
