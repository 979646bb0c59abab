//! Applying a toolbar format to the selected visible characters of a raw
//! MText value: the codes go around the characters the selection covers,
//! and a case change rewrites those characters.

use vstd::prelude::*;
use crate::mtext_editor::raw::{
    byte_at, char_width, lemma_byte_at_mono, lemma_byte_at_next, lemma_visible_slots_ordered,
    utf8_len, visible_slots, visible_spans,
};
use crate::text_util::{chars_of, push_str, string_of_range};

verus! {

/// Byte offsets strictly grow with the character index.
pub proof fn lemma_byte_at_strict(s: Seq<char>, j: int, k: int)
    requires
        0 <= j < k <= s.len(),
    ensures
        byte_at(s, j) < byte_at(s, k),
{
    lemma_byte_at_next(s, j);
    lemma_byte_at_mono(s, j + 1, k);
}

/// The characters `[start, end)` that the visible-slot selection `[a, b)`
/// of `raw` covers; `None` when there is no usable selection.
pub open spec fn selection_range(raw: Seq<char>, sel: Option<(usize, usize)>) -> Option<(int, int)> {
    let c = visible_slots(raw);
    match sel {
        Some((a, b)) => if a < b && a < c.len() && b <= c.len() {
            Some((c[a as int].0, c[b - 1].1))
        } else {
            None
        },
        None => None,
    }
}

/// The character index whose byte offset is `target`, scanning from
/// character `k0` (at byte `b0`).
fn char_at_byte(v: &Vec<char>, k0: usize, b0: usize, target: usize, Ghost(j): Ghost<int>) -> (k: usize)
    requires
        k0 <= j <= v@.len(),
        b0 == byte_at(v@, k0 as int),
        target == byte_at(v@, j),
    ensures
        k == j,
{
    let n = v.len();
    let mut k = k0;
    let mut acc = b0;
    while acc < target
        invariant
            n == v@.len(),
            k0 <= k <= j <= v@.len(),
            acc == byte_at(v@, k as int),
            target == byte_at(v@, j),
        decreases j - k,
    {
        proof {
            if k == j {
                assert(false);
            }
            lemma_byte_at_next(v@, k as int);
            lemma_byte_at_mono(v@, k + 1, j);
        }
        acc = acc + char_width(v[k]);
        k = k + 1;
    }
    proof {
        if k < j {
            lemma_byte_at_strict(v@, k as int, j);
        }
    }
    k
}

/// The characters the visible-slot selection `sel` of `raw` covers.
pub fn selection_chars(raw: &str, sel: Option<(usize, usize)>) -> (r: Option<(usize, usize)>)
    requires
        utf8_len(raw@) <= usize::MAX,
    ensures
        match (r, selection_range(raw@, sel)) {
            (Some((x, y)), Some((p, q))) => x == p && y == q && x <= y <= raw@.len(),
            (None, None) => true,
            _ => false,
        },
{
    let (a, b) = match sel {
        Some(ab) => ab,
        None => {
            return None;
        },
    };
    if a >= b {
        return None;
    }
    let spans = visible_spans(raw);
    let ghost c = visible_slots(raw@);
    proof {
        lemma_visible_slots_ordered(raw@);
    }
    if a >= spans.len() || b > spans.len() {
        return None;
    }
    let v = chars_of(raw);
    let start = spans[a].0;
    let end = spans[b - 1].1;
    proof {
        lemma_byte_at_mono(raw@, c[a as int].0, raw@.len() as int);
        lemma_byte_at_mono(raw@, c[b - 1].1, raw@.len() as int);
        assert(raw@.take(raw@.len() as int) =~= raw@);
        assert(raw@.take(0) =~= Seq::<char>::empty());
        if a < b - 1 {
            assert(c[a as int].1 <= c[b - 1].0);
        }
    }
    let ks = char_at_byte(&v, 0, 0, start, Ghost(c[a as int].0));
    proof {
        lemma_byte_at_mono(raw@, 0, ks as int);
    }
    let ke = char_at_byte(&v, ks, start, end, Ghost(c[b - 1].1));
    Some((ks, ke))
}

/// `raw` with `prefix` and `suffix` around its characters `[ks, ke)`, which
/// are replaced by `middle`.
pub fn splice_range(raw: &str, ks: usize, ke: usize, prefix: &str, middle: &str, suffix: &str) -> (r: String)
    requires
        ks <= ke <= raw@.len(),
    ensures
        r@ == raw@.take(ks as int) + prefix@ + middle@ + suffix@ + raw@.skip(ke as int),
{
    let v = chars_of(raw);
    let mut s = string_of_range(&v, 0, ks);
    push_str(&mut s, prefix);
    push_str(&mut s, middle);
    push_str(&mut s, suffix);
    let tail = string_of_range(&v, ke, v.len());
    push_str(&mut s, tail.as_str());
    proof {
        assert(raw@.subrange(0, ks as int) =~= raw@.take(ks as int));
        assert(raw@.subrange(ke as int, raw@.len() as int) =~= raw@.skip(ke as int));
    }
    s
}

/// What `str::to_uppercase` gives for `s` (Unicode upper-case mapping).
pub uninterp spec fn upper_case(s: Seq<char>) -> Seq<char>;

/// What `str::to_lowercase` gives for `s` (Unicode lower-case mapping).
pub uninterp spec fn lower_case(s: Seq<char>) -> Seq<char>;

/// `str::to_uppercase`: the Unicode upper-case form of `s`; it depends on
/// `s` alone.
#[verifier::external_body]
fn to_upper(s: &str) -> (r: String)
    ensures
        r@ == upper_case(s@),
{
    s.to_uppercase()
}

/// `str::to_lowercase`: the Unicode lower-case form of `s`; it depends on
/// `s` alone.
#[verifier::external_body]
fn to_lower(s: &str) -> (r: String)
    ensures
        r@ == lower_case(s@),
{
    s.to_lowercase()
}

/// The selected characters after the optional case change.
pub open spec fn recased(t: Seq<char>, case: Option<bool>) -> Seq<char> {
    match case {
        Some(true) => upper_case(t),
        Some(false) => lower_case(t),
        None => t,
    }
}

/// Put `prefix` and `suffix` around the characters the visible-slot
/// selection `sel` covers in `raw`, changing their case when `case` asks
/// (`Some(true)` upper, `Some(false)` lower). `None` when there is no usable
/// selection; the caller then leaves the text alone.
pub fn splice_selection(
    raw: &str,
    sel: Option<(usize, usize)>,
    prefix: &str,
    suffix: &str,
    case: Option<bool>,
) -> (r: Option<String>)
    requires
        utf8_len(raw@) <= usize::MAX,
    ensures
        match selection_range(raw@, sel) {
            None => r is None,
            Some((ks, ke)) => r matches Some(t) && t@ == raw@.take(ks) + prefix@ + recased(
                raw@.subrange(ks, ke),
                case,
            ) + suffix@ + raw@.skip(ke),
        },
{
    let (ks, ke) = match selection_chars(raw, sel) {
        Some(r) => r,
        None => {
            return None;
        },
    };
    let v = chars_of(raw);
    let slice = string_of_range(&v, ks, ke);
    let middle = match case {
        Some(true) => to_upper(slice.as_str()),
        Some(false) => to_lower(slice.as_str()),
        None => slice,
    };
    Some(splice_range(raw, ks, ke, prefix, middle.as_str(), suffix))
}

} // verus!
