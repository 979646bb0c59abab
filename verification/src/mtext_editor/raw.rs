//! Helpers on the raw MText value (plain text with inline format codes).

use vstd::prelude::*;
use crate::text_util::{chars_of, trim_end};

verus! {

/// The number of `\` characters at the end of `s`.
pub open spec fn trailing_backslashes(s: Seq<char>) -> nat
    decreases s.len(),
{
    if s.len() > 0 && s.last() == '\\' {
        1 + trailing_backslashes(s.drop_last())
    } else {
        0
    }
}

/// True when a raw MText value ends with a hard paragraph break: after
/// trailing white space and one closing `}` are dropped, it ends in `P`
/// preceded by an odd run of backslashes (an even run is an escaped literal
/// backslash followed by a plain `P`).
pub open spec fn has_trailing_break(raw: Seq<char>) -> bool {
    let s = trim_end(raw);
    let s2 = if s.len() > 0 && s.last() == '}' {
        s.drop_last()
    } else {
        s
    };
    s2.len() > 0 && s2.last() == 'P' && trailing_backslashes(s2.drop_last()) % 2 == 1
}

/// True when the serialized MText value ends with a hard paragraph break —
/// i.e. a trailing empty paragraph, which a parse of the value drops.
pub fn content_has_trailing_break(raw: &str) -> (b: bool)
    ensures
        b == has_trailing_break(raw@),
{
    let v = chars_of(raw);
    let end = crate::text_util::skip_ws_backward(&v, 0, v.len());
    proof {
        assert(v@.subrange(0, v@.len() as int) =~= v@);
    }
    let ghost s = v@.subrange(0, end as int);
    let mut e = end;
    if e > 0 && v[e - 1] == '}' {
        e = e - 1;
    }
    proof {
        if end > 0 && v@[end - 1] == '}' {
            assert(s.drop_last() =~= v@.subrange(0, e as int));
        }
    }
    let ghost s2 = v@.subrange(0, e as int);
    if e == 0 || v[e - 1] != 'P' {
        return false;
    }
    let mut k = e - 1;
    let mut count: usize = 0;
    proof {
        assert(s2.drop_last() =~= v@.subrange(0, k as int));
    }
    while k > 0 && v[k - 1] == '\\'
        invariant
            0 <= k < e <= v@.len(),
            count + k == e - 1,
            trailing_backslashes(s2.drop_last()) == count + trailing_backslashes(
                v@.subrange(0, k as int),
            ),
        decreases k,
    {
        assert(v@.subrange(0, k as int).drop_last() =~= v@.subrange(0, k - 1));
        k = k - 1;
        count = count + 1;
    }
    count % 2 == 1
}

/// A value that ends with the break code `\P` (after trailing white space
/// or one closing `}`) ends with a hard paragraph break; one that ends with
/// an escaped backslash followed by `P` does not.
pub proof fn lemma_trailing_break(t: Seq<char>)
    requires
        t.len() == 0 || t.last() != '\\',
    ensures
        has_trailing_break(t + seq!['\\', 'P']),
        has_trailing_break(t + seq!['\\', 'P', '}']),
        has_trailing_break(t + seq!['\\', 'P', ' ']),
        !has_trailing_break(t + seq!['\\', '\\', 'P']),
{
    let a = t + seq!['\\', 'P'];
    assert(trim_end(a) == a);
    assert(a.drop_last() =~= t + seq!['\\']);
    assert((t + seq!['\\']).drop_last() =~= t);
    assert(trailing_backslashes(t) == 0);
    assert(trailing_backslashes(t + seq!['\\']) == 1);
    let b = t + seq!['\\', 'P', '}'];
    assert(trim_end(b) == b);
    assert(b.drop_last() =~= a);
    let c = t + seq!['\\', 'P', ' '];
    assert(c.drop_last() =~= a);
    assert(trim_end(c) == a);
    let d = t + seq!['\\', '\\', 'P'];
    assert(trim_end(d) == d);
    assert(d.drop_last() =~= t + seq!['\\', '\\']);
    assert((t + seq!['\\', '\\']).drop_last() =~= t + seq!['\\']);
    assert(trailing_backslashes(t + seq!['\\', '\\']) == 2);
}

/// Bytes in the UTF-8 encoding of `c`.
pub open spec fn utf8_width(c: char) -> nat {
    let n = c as u32;
    if n < 0x80 {
        1
    } else if n < 0x800 {
        2
    } else if n < 0x10000 {
        3
    } else {
        4
    }
}

/// Bytes in the UTF-8 encoding of `c` (`char::len_utf8`).
pub fn char_width(c: char) -> (w: usize)
    ensures
        w == utf8_width(c),
{
    let n = c as u32;
    if n < 0x80 {
        1
    } else if n < 0x800 {
        2
    } else if n < 0x10000 {
        3
    } else {
        4
    }
}

/// Bytes in the UTF-8 encoding of `s`.
pub open spec fn utf8_len(s: Seq<char>) -> nat
    decreases s.len(),
{
    if s.len() == 0 {
        0
    } else {
        utf8_len(s.drop_last()) + utf8_width(s.last())
    }
}

/// Byte offset of character `k` of `s`.
pub open spec fn byte_at(s: Seq<char>, k: int) -> int {
    utf8_len(s.take(k)) as int
}

/// Byte offsets grow with the character index.
pub proof fn lemma_byte_at_mono(s: Seq<char>, j: int, k: int)
    requires
        0 <= j <= k <= s.len(),
    ensures
        byte_at(s, j) <= byte_at(s, k),
    decreases k - j,
{
    if j < k {
        lemma_byte_at_mono(s, j, k - 1);
        assert(s.take(k).drop_last() =~= s.take(k - 1));
    }
}

/// The next byte offset after character `k`.
pub proof fn lemma_byte_at_next(s: Seq<char>, k: int)
    requires
        0 <= k < s.len(),
    ensures
        byte_at(s, k + 1) == byte_at(s, k) + utf8_width(s[k]),
{
    assert(s.take(k + 1).drop_last() =~= s.take(k));
}

/// The index just past the first `;` at or after `j` (or the end).
pub open spec fn skip_code(s: Seq<char>, j: int) -> int
    decreases s.len() - j,
{
    if j < 0 || j >= s.len() {
        s.len() as int
    } else if s[j] == ';' {
        j + 1
    } else {
        skip_code(s, j + 1)
    }
}

/// The number of ASCII digits (at most 3) starting at `j`.
pub open spec fn digit_run(s: Seq<char>, j: int) -> int {
    if !(0 <= j < s.len() && is_digit(s[j])) {
        0
    } else if !(j + 1 < s.len() && is_digit(s[j + 1])) {
        1
    } else if !(j + 2 < s.len() && is_digit(s[j + 2])) {
        2
    } else {
        3
    }
}

pub open spec fn is_digit(c: char) -> bool {
    '0' <= c && c <= '9'
}

/// A visible character that the layout drops at the start and end of a
/// paragraph: a space or a no-break space.
pub open spec fn is_space_glyph(c: char) -> bool {
    c == ' ' || c == '\u{00A0}'
}

/// What the visible-slot scan finds at a character of a raw MText value.
pub enum Token {
    /// A visible character covering `[k, end)`; the scan goes on at `next`.
    /// `space` says whether it is a space the layout trims at paragraph ends.
    Glyph { end: int, next: int, space: bool },
    /// A paragraph break covering `[k, end)`: it takes a caret slot.
    Break { end: int },
    /// Characters that show nothing (codes, group braces); go on at `next`.
    Skip { next: int },
}

/// The token at character `k` (`0 <= k < s.len()`): paragraph breaks are
/// `\P`, `\n`, `\N` and raw line breaks; `\~` is a no-break space; `\\`,
/// `\{`, `\}` are one character each; toggles are skipped, value codes up to
/// `;`; `%%`-codes are one character each; group braces show nothing.
pub open spec fn token_at(s: Seq<char>, k: int) -> Token {
    let c = s[k];
    if c == '\\' {
        if k + 1 >= s.len() {
            Token::Skip { next: s.len() as int }
        } else {
            let d = s[k + 1];
            if d == 'P' || d == 'n' || d == 'N' {
                Token::Break { end: k + 2 }
            } else if d == '~' {
                Token::Glyph { end: k + 2, next: k + 2, space: true }
            } else if d == '\\' || d == '{' || d == '}' {
                Token::Glyph { end: k + 2, next: k + 2, space: false }
            } else if d == 'L' || d == 'l' || d == 'O' || d == 'o' || d == 'K' || d == 'k' {
                Token::Skip { next: k + 2 }
            } else {
                Token::Skip { next: skip_code(s, k + 2) }
            }
        }
    } else if c == '{' || c == '}' {
        Token::Skip { next: k + 1 }
    } else if c == '\n' || c == '\r' {
        Token::Break { end: k + 1 }
    } else if c == '%' && k + 1 < s.len() && s[k + 1] == '%' {
        if k + 2 >= s.len() {
            Token::Glyph { end: k + 1, next: k + 2, space: false }
        } else if is_digit(s[k + 2]) {
            let n = digit_run(s, k + 2);
            Token::Glyph { end: k + 2 + n, next: k + 2 + n, space: false }
        } else {
            Token::Glyph { end: k + 3, next: k + 3, space: is_space_glyph(s[k + 2]) }
        }
    } else {
        Token::Glyph { end: k + 1, next: k + 1, space: is_space_glyph(c) }
    }
}

/// Every token moves the scan forward and stays within `s`.
pub proof fn lemma_token(s: Seq<char>, k: int)
    requires
        0 <= k < s.len(),
    ensures
        match token_at(s, k) {
            Token::Glyph { end, next, space } => k < end <= next <= s.len(),
            Token::Break { end } => k < end <= s.len(),
            Token::Skip { next } => k < next <= s.len(),
        },
{
    if s[k] == '\\' && k + 1 < s.len() {
        lemma_skip_code(s, k + 2);
    }
}

/// `p` without the space items at its start.
pub open spec fn drop_lead(p: Seq<(int, int, bool)>) -> Seq<(int, int, bool)>
    decreases p.len(),
{
    if p.len() > 0 && p[0].2 {
        drop_lead(p.drop_first())
    } else {
        p
    }
}

/// `p` without the space items at its end.
pub open spec fn drop_trail(p: Seq<(int, int, bool)>) -> Seq<(int, int, bool)>
    decreases p.len(),
{
    if p.len() > 0 && p.last().2 {
        drop_trail(p.drop_last())
    } else {
        p
    }
}

/// The character ranges of a paragraph's visible characters, spaces at its
/// start and end left out.
pub open spec fn trimmed(p: Seq<(int, int, bool)>) -> Seq<(int, int)> {
    drop_trail(drop_lead(p)).map_values(|t: (int, int, bool)| (t.0, t.1))
}

/// The visible slots of `s` from character `k` on, as character ranges, with
/// `para` the visible characters of the paragraph read so far.
pub open spec fn slots_from(s: Seq<char>, k: int, para: Seq<(int, int, bool)>) -> Seq<(int, int)>
    decreases s.len() - k,
{
    if k < 0 || k >= s.len() {
        trimmed(para)
    } else {
        proof {
            lemma_token(s, k);
        }
        match token_at(s, k) {
            Token::Glyph { end, next, space } => slots_from(s, next, para.push((k, end, space))),
            Token::Break { end } => trimmed(para) + seq![(k, end)] + slots_from(s, end, Seq::empty()),
            Token::Skip { next } => slots_from(s, next, para),
        }
    }
}

/// The visible slots of a raw MText value as character ranges, in reading
/// order: one per visible character and one per paragraph break, spaces at
/// the start and end of each paragraph left out.
pub open spec fn visible_slots(s: Seq<char>) -> Seq<(int, int)> {
    slots_from(s, 0, Seq::empty())
}

/// Character ranges of `s` as byte spans.
pub open spec fn byte_spans(s: Seq<char>, c: Seq<(int, int)>) -> Seq<(usize, usize)> {
    c.map_values(|t: (int, int)| (byte_at(s, t.0) as usize, byte_at(s, t.1) as usize))
}

/// The items of `p` lie in order within `[lo, hi]`, each non-empty.
pub open spec fn ordered_items(p: Seq<(int, int, bool)>, lo: int, hi: int) -> bool {
    &&& forall|i: int| 0 <= i < p.len() ==> lo <= (#[trigger] p[i]).0 < p[i].1 <= hi
    &&& forall|i: int, j: int| 0 <= i < j < p.len() ==> (#[trigger] p[i]).1 <= (#[trigger] p[j]).0
}

/// The ranges of `c` lie in order within `[lo, hi]`, each non-empty.
pub open spec fn ordered_ranges(c: Seq<(int, int)>, lo: int, hi: int) -> bool {
    &&& forall|i: int| 0 <= i < c.len() ==> lo <= (#[trigger] c[i]).0 < c[i].1 <= hi
    &&& forall|i: int, j: int| 0 <= i < j < c.len() ==> (#[trigger] c[i]).1 <= (#[trigger] c[j]).0
}

proof fn lemma_drop_lead(p: Seq<(int, int, bool)>)
    ensures
        exists|i: int| 0 <= i <= p.len() && drop_lead(p) == p.skip(i),
    decreases p.len(),
{
    if p.len() > 0 && p[0].2 {
        lemma_drop_lead(p.drop_first());
        let i = choose|i: int| 0 <= i <= p.drop_first().len() && drop_lead(p.drop_first()) == p.drop_first().skip(i);
        assert(p.drop_first().skip(i) =~= p.skip(i + 1));
    } else {
        assert(p.skip(0) =~= p);
    }
}

proof fn lemma_drop_trail(p: Seq<(int, int, bool)>)
    ensures
        exists|i: int| 0 <= i <= p.len() && drop_trail(p) == p.take(i),
    decreases p.len(),
{
    if p.len() > 0 && p.last().2 {
        lemma_drop_trail(p.drop_last());
        let i = choose|i: int| 0 <= i <= p.drop_last().len() && drop_trail(p.drop_last()) == p.drop_last().take(i);
        assert(p.drop_last().take(i) =~= p.take(i));
    } else {
        assert(p.take(p.len() as int) =~= p);
    }
}

/// Trimming keeps the order and bounds of a paragraph's items.
proof fn lemma_trimmed_ordered(p: Seq<(int, int, bool)>, lo: int, hi: int)
    requires
        ordered_items(p, lo, hi),
    ensures
        ordered_ranges(trimmed(p), lo, hi),
{
    lemma_drop_lead(p);
    let i = choose|i: int| 0 <= i <= p.len() && drop_lead(p) == p.skip(i);
    let q = p.skip(i);
    assert(ordered_items(q, lo, hi)) by {
        assert forall|a: int| 0 <= a < q.len() implies lo <= (#[trigger] q[a]).0 < q[a].1 <= hi by {
            assert(q[a] == p[a + i]);
        }
        assert forall|a: int, b: int| 0 <= a < b < q.len() implies (#[trigger] q[a]).1 <= (
        #[trigger] q[b]).0 by {
            assert(q[a] == p[a + i]);
            assert(q[b] == p[b + i]);
        }
    }
    lemma_drop_trail(q);
    let j = choose|j: int| 0 <= j <= q.len() && drop_trail(q) == q.take(j);
    let r = q.take(j);
    let t = trimmed(p);
    assert(t.len() == r.len());
    assert forall|a: int| 0 <= a < t.len() implies lo <= (#[trigger] t[a]).0 < t[a].1 <= hi by {
        assert(t[a] == (r[a].0, r[a].1));
        assert(r[a] == q[a]);
    }
    assert forall|a: int, b: int| 0 <= a < b < t.len() implies (#[trigger] t[a]).1 <= (
    #[trigger] t[b]).0 by {
        assert(t[a] == (r[a].0, r[a].1));
        assert(t[b] == (r[b].0, r[b].1));
        assert(r[a] == q[a]);
        assert(r[b] == q[b]);
    }
}

proof fn lemma_ranges_concat(a: Seq<(int, int)>, b: Seq<(int, int)>, lo: int, mid: int, hi: int)
    requires
        lo <= mid <= hi,
        ordered_ranges(a, lo, mid),
        ordered_ranges(b, mid, hi),
    ensures
        ordered_ranges(a + b, lo, hi),
{
    let c = a + b;
    assert forall|i: int| 0 <= i < c.len() implies lo <= (#[trigger] c[i]).0 < c[i].1 <= hi by {
        if i >= a.len() {
            assert(c[i] == b[i - a.len()]);
        } else {
            assert(c[i] == a[i]);
        }
    }
    assert forall|i: int, j: int| 0 <= i < j < c.len() implies (#[trigger] c[i]).1 <= (
    #[trigger] c[j]).0 by {
        if j < a.len() {
            assert(c[i] == a[i]);
            assert(c[j] == a[j]);
        } else if i < a.len() {
            assert(c[i] == a[i]);
            assert(c[j] == b[j - a.len()]);
        } else {
            assert(c[i] == b[i - a.len()]);
            assert(c[j] == b[j - a.len()]);
        }
    }
}

/// The visible slots from `k` on lie in order within `[lo, s.len()]` when
/// the paragraph read so far lies in order within `[lo, k]`.
pub proof fn lemma_slots_ordered(s: Seq<char>, k: int, para: Seq<(int, int, bool)>, lo: int)
    requires
        0 <= lo <= k,
        ordered_items(para, lo, k),
    ensures
        ordered_ranges(slots_from(s, k, para), lo, if k < s.len() { s.len() as int } else { k }),
    decreases s.len() - k,
{
    if k >= s.len() {
        lemma_trimmed_ordered(para, lo, k);
    } else {
        lemma_token(s, k);
        match token_at(s, k) {
            Token::Glyph { end, next, space } => {
                let p2 = para.push((k, end, space));
                assert(ordered_items(p2, lo, next)) by {
                    assert forall|i: int| 0 <= i < p2.len() implies lo <= (#[trigger] p2[i]).0
                        < p2[i].1 <= next by {
                        if i < para.len() {
                            assert(p2[i] == para[i]);
                        }
                    }
                    assert forall|i: int, j: int| 0 <= i < j < p2.len() implies (
                    #[trigger] p2[i]).1 <= (#[trigger] p2[j]).0 by {
                        assert(p2[i] == para[i]);
                        if j < para.len() {
                            assert(p2[j] == para[j]);
                        }
                    }
                }
                lemma_slots_ordered(s, next, p2, lo);
            },
            Token::Break { end } => {
                lemma_trimmed_ordered(para, lo, k);
                lemma_slots_ordered(s, end, Seq::empty(), end);
                let one = seq![(k, end)];
                assert(ordered_ranges(one, k, end));
                lemma_ranges_concat(trimmed(para), one, lo, k, end);
                lemma_ranges_concat(trimmed(para) + one, slots_from(s, end, Seq::empty()), lo, end, s.len() as int);
            },
            Token::Skip { next } => {
                lemma_slots_ordered(s, next, para, lo);
            },
        }
    }
}

/// The visible slots lie in order within the text, each non-empty.
pub proof fn lemma_visible_slots_ordered(s: Seq<char>)
    ensures
        ordered_ranges(visible_slots(s), 0, s.len() as int),
{
    lemma_slots_ordered(s, 0, Seq::empty(), 0);
    if s.len() == 0 {
        assert(visible_slots(s) =~= Seq::<(int, int)>::empty());
    }
}

/// Character `k` of `s` exists and is not a group brace.
pub open spec fn not_brace_at(s: Seq<char>, k: int) -> bool {
    0 <= k < s.len() && s[k] != '{' && s[k] != '}'
}

/// Trimming a paragraph keeps only items it had.
proof fn lemma_trimmed_not_brace(s: Seq<char>, p: Seq<(int, int, bool)>)
    requires
        forall|i: int| 0 <= i < p.len() ==> not_brace_at(s, (#[trigger] p[i]).0),
    ensures
        forall|i: int| 0 <= i < trimmed(p).len() ==> not_brace_at(s, (#[trigger] trimmed(p)[i]).0),
{
    lemma_drop_lead(p);
    let i = choose|i: int| 0 <= i <= p.len() && drop_lead(p) == p.skip(i);
    let q = p.skip(i);
    lemma_drop_trail(q);
    let j = choose|j: int| 0 <= j <= q.len() && drop_trail(q) == q.take(j);
    let t = trimmed(p);
    assert forall|a: int| 0 <= a < t.len() implies not_brace_at(s, (#[trigger] t[a]).0) by {
        assert(t[a].0 == q.take(j)[a].0);
        assert(q.take(j)[a] == p[a + i]);
    }
}

/// The slots from `k` on start at no group brace when the paragraph read so
/// far starts at none.
proof fn lemma_slots_not_brace(s: Seq<char>, k: int, para: Seq<(int, int, bool)>)
    requires
        0 <= k,
        forall|i: int| 0 <= i < para.len() ==> not_brace_at(s, (#[trigger] para[i]).0),
    ensures
        forall|i: int|
            0 <= i < slots_from(s, k, para).len() ==> not_brace_at(
                s,
                (#[trigger] slots_from(s, k, para)[i]).0,
            ),
    decreases s.len() - k,
{
    if k >= s.len() {
        lemma_trimmed_not_brace(s, para);
    } else {
        lemma_token(s, k);
        match token_at(s, k) {
            Token::Glyph { end, next, space } => {
                let p2 = para.push((k, end, space));
                assert(not_brace_at(s, k));
                assert(slots_from(s, k, para) == slots_from(s, next, p2));
                assert forall|i: int| 0 <= i < p2.len() implies not_brace_at(s, (#[trigger] p2[i]).0) by {
                    if i < para.len() {
                        assert(p2[i] == para[i]);
                    }
                }
                lemma_slots_not_brace(s, next, p2);
            },
            Token::Break { end } => {
                lemma_trimmed_not_brace(s, para);
                lemma_slots_not_brace(s, end, Seq::empty());
                let a = trimmed(para);
                let b = seq![(k, end)];
                let c = slots_from(s, end, Seq::empty());
                let all = a + b + c;
                assert(not_brace_at(s, k));
                assert(slots_from(s, k, para) == all);
                assert forall|i: int| 0 <= i < all.len() implies not_brace_at(s, (#[trigger] all[i]).0) by {
                    if i < a.len() {
                        assert(all[i] == a[i]);
                    } else if i == a.len() {
                        assert(all[i] == (k, end));
                    } else {
                        assert(all[i] == c[i - a.len() - 1]);
                    }
                }
            },
            Token::Skip { next } => {
                assert(slots_from(s, k, para) == slots_from(s, next, para));
                lemma_slots_not_brace(s, next, para);
            },
        }
    }
}

/// An unescaped `{` or `}` in a raw MText value is a group marker, not a
/// visible character: no caret slot starts at one. Every slot starts at a
/// character of the value that is neither brace (an escaped `\{` slot starts
/// at its backslash).
pub proof fn lemma_no_slot_at_brace(s: Seq<char>)
    ensures
        forall|i: int|
            0 <= i < visible_slots(s).len() ==> not_brace_at(s, (#[trigger] visible_slots(s)[i]).0),
{
    lemma_slots_not_brace(s, 0, Seq::empty());
}

/// Character ranges moved `d` characters to the right.
pub open spec fn shift_ranges(c: Seq<(int, int)>, d: int) -> Seq<(int, int)> {
    c.map_values(|t: (int, int)| (t.0 + d, t.1 + d))
}

/// Paragraph items moved `d` characters to the right.
pub open spec fn shift_items(p: Seq<(int, int, bool)>, d: int) -> Seq<(int, int, bool)> {
    p.map_values(|t: (int, int, bool)| (t.0 + d, t.1 + d, t.2))
}

/// A token moved `d` characters to the right.
pub open spec fn shift_token(t: Token, d: int) -> Token {
    match t {
        Token::Glyph { end, next, space } => Token::Glyph { end: end + d, next: next + d, space },
        Token::Break { end } => Token::Break { end: end + d },
        Token::Skip { next } => Token::Skip { next: next + d },
    }
}

proof fn lemma_skip_code_shift(p: Seq<char>, t: Seq<char>, j: int)
    requires
        0 <= j,
    ensures
        skip_code(p + t, p.len() + j) == p.len() + skip_code(t, j),
    decreases t.len() - j,
{
    if j < t.len() {
        assert((p + t)[p.len() + j] == t[j]);
        lemma_skip_code_shift(p, t, j + 1);
    }
}

/// What the scan reads inside `t` does not depend on what precedes `t`.
proof fn lemma_token_shift(p: Seq<char>, t: Seq<char>, j: int)
    requires
        0 <= j < t.len(),
    ensures
        token_at(p + t, p.len() + j) == shift_token(token_at(t, j), p.len() as int),
{
    let s = p + t;
    let o = p.len() as int;
    assert forall|i: int| 0 <= i < t.len() implies #[trigger] s[o + i] == t[i] by {}
    assert(s[o + j] == t[j]);
    if j + 1 < t.len() {
        assert(s[o + j + 1] == t[j + 1]);
    }
    if j + 2 < t.len() {
        assert(s[o + j + 2] == t[j + 2]);
        lemma_skip_code_shift(p, t, j + 2);
    }
    if j + 3 < t.len() {
        assert(s[o + j + 3] == t[j + 3]);
    }
    if j + 4 < t.len() {
        assert(s[o + j + 4] == t[j + 4]);
    }
    lemma_skip_code_shift(p, t, j + 2);
    assert(digit_run(s, o + j + 2) == digit_run(t, j + 2));
}

proof fn lemma_drop_lead_shift(p: Seq<(int, int, bool)>, d: int)
    ensures
        drop_lead(shift_items(p, d)) == shift_items(drop_lead(p), d),
    decreases p.len(),
{
    if p.len() > 0 && p[0].2 {
        assert(shift_items(p, d).drop_first() =~= shift_items(p.drop_first(), d));
        lemma_drop_lead_shift(p.drop_first(), d);
    }
}

proof fn lemma_drop_trail_shift(p: Seq<(int, int, bool)>, d: int)
    ensures
        drop_trail(shift_items(p, d)) == shift_items(drop_trail(p), d),
    decreases p.len(),
{
    if p.len() > 0 && p.last().2 {
        assert(shift_items(p, d).drop_last() =~= shift_items(p.drop_last(), d));
        lemma_drop_trail_shift(p.drop_last(), d);
    }
}

proof fn lemma_trimmed_shift(p: Seq<(int, int, bool)>, d: int)
    ensures
        trimmed(shift_items(p, d)) == shift_ranges(trimmed(p), d),
{
    lemma_drop_lead_shift(p, d);
    lemma_drop_trail_shift(drop_lead(p), d);
    assert(trimmed(shift_items(p, d)) =~= shift_ranges(trimmed(p), d));
}

/// The slots that the scan finds inside `t` are those it finds in `t`
/// alone, moved by the length of what precedes `t`.
proof fn lemma_slots_shift(p: Seq<char>, t: Seq<char>, j: int, para: Seq<(int, int, bool)>)
    requires
        0 <= j <= t.len(),
    ensures
        slots_from(p + t, p.len() + j, shift_items(para, p.len() as int)) == shift_ranges(
            slots_from(t, j, para),
            p.len() as int,
        ),
    decreases t.len() - j,
{
    let s = p + t;
    let o = p.len() as int;
    if j >= t.len() {
        lemma_trimmed_shift(para, o);
    } else {
        lemma_token(t, j);
        lemma_token_shift(p, t, j);
        match token_at(t, j) {
            Token::Glyph { end, next, space } => {
                assert(shift_items(para, o).push((o + j, o + end, space)) =~= shift_items(
                    para.push((j, end, space)),
                    o,
                ));
                lemma_slots_shift(p, t, next, para.push((j, end, space)));
            },
            Token::Break { end } => {
                lemma_trimmed_shift(para, o);
                assert(shift_items(Seq::<(int, int, bool)>::empty(), o) =~= Seq::<
                    (int, int, bool),
                >::empty());
                lemma_slots_shift(p, t, end, Seq::empty());
                let a = trimmed(para);
                let c = slots_from(t, end, Seq::empty());
                assert(shift_ranges(a + seq![(j, end)] + c, o) =~= shift_ranges(a, o) + seq![
                    (o + j, o + end),
                ] + shift_ranges(c, o));
            },
            Token::Skip { next } => {
                lemma_slots_shift(p, t, next, para);
            },
        }
    }
}

/// A group brace at the start of a raw MText value adds no caret slot: the
/// slots of `{t` (or `}t`) are those of `t`, one character further on.
/// For example the slots of `{ab}` are `[1, 2)` and `[2, 3)`.
pub proof fn lemma_leading_brace(t: Seq<char>, b: char)
    requires
        b == '{' || b == '}',
    ensures
        visible_slots(seq![b] + t) == shift_ranges(visible_slots(t), 1),
{
    let p = seq![b];
    let s = p + t;
    assert(token_at(s, 0) == Token::Skip { next: 1 });
    assert(shift_items(Seq::<(int, int, bool)>::empty(), 1) =~= Seq::<(int, int, bool)>::empty());
    lemma_slots_shift(p, t, 0, Seq::empty());
}

/// A character that is neither a code, a brace, a line break nor a `%`.
pub open spec fn plain_char(c: char) -> bool {
    c != '\\' && c != '{' && c != '}' && c != '\n' && c != '\r' && c != '%'
}

/// Plain characters only, not starting or ending with a space.
pub open spec fn plain_text(a: Seq<char>) -> bool {
    &&& forall|i: int| 0 <= i < a.len() ==> plain_char(#[trigger] a[i])
    &&& a.len() > 0 ==> !is_space_glyph(a[0]) && !is_space_glyph(a.last())
}

/// One slot per character: `[0, 1)`, `[1, 2)`, … `[n - 1, n)`.
pub open spec fn char_slots(n: nat) -> Seq<(int, int)> {
    Seq::new(n, |i: int| (i, i + 1))
}

/// The paragraph items of the first `k` characters of `s`, one per character.
spec fn char_items(s: Seq<char>, k: nat) -> Seq<(int, int, bool)> {
    Seq::new(k, |i: int| (i, i + 1, is_space_glyph(s[i])))
}

/// Over a run of plain characters the scan reads one item per character.
proof fn lemma_plain_run(s: Seq<char>, k: int, n: int)
    requires
        0 <= k <= n <= s.len(),
        forall|i: int| 0 <= i < n ==> plain_char(#[trigger] s[i]),
    ensures
        slots_from(s, k, char_items(s, k as nat)) == slots_from(s, n, char_items(s, n as nat)),
    decreases n - k,
{
    if k < n {
        assert(plain_char(s[k]));
        assert(token_at(s, k) == Token::Glyph { end: k + 1, next: k + 1, space: is_space_glyph(s[k]) });
        assert(char_items(s, k as nat).push((k, k + 1, is_space_glyph(s[k]))) =~= char_items(
            s,
            (k + 1) as nat,
        ));
        lemma_plain_run(s, k + 1, n);
    }
}

/// The items of a plain text, trimmed, are one slot per character.
proof fn lemma_plain_trimmed(s: Seq<char>, a: Seq<char>)
    requires
        plain_text(a),
        a.len() <= s.len(),
        forall|i: int| 0 <= i < a.len() ==> s[i] == a[i],
    ensures
        trimmed(char_items(s, a.len())) == char_slots(a.len()),
{
    let p = char_items(s, a.len());
    if a.len() > 0 {
        assert(!p[0].2);
        assert(!p.last().2);
    }
    assert(drop_lead(p) == p);
    assert(drop_trail(p) == p);
    assert(trimmed(p) =~= char_slots(a.len()));
}

/// Plain text has one caret slot per character, in order.
pub proof fn lemma_plain_slots(a: Seq<char>)
    requires
        plain_text(a),
    ensures
        visible_slots(a) == char_slots(a.len()),
{
    assert(char_items(a, 0) =~= Seq::<(int, int, bool)>::empty());
    lemma_plain_run(a, 0, a.len() as int);
    lemma_plain_trimmed(a, a);
}

/// Spaces at the start and end of a paragraph take no caret slot: a space
/// before and a space after plain text leave one slot per character of the
/// text, moved past the leading space.
pub proof fn lemma_edge_spaces(a: Seq<char>)
    requires
        plain_text(a),
        a.len() > 0,
    ensures
        visible_slots(seq![' '] + a + seq![' ']) == shift_ranges(char_slots(a.len()), 1),
{
    let s = seq![' '] + a + seq![' '];
    let n = s.len() as int;
    assert forall|i: int| 0 <= i < n implies plain_char(#[trigger] s[i]) by {
        if 0 < i < n - 1 {
            assert(s[i] == a[i - 1]);
        }
    }
    assert(char_items(s, 0) =~= Seq::<(int, int, bool)>::empty());
    lemma_plain_run(s, 0, n);
    let p = char_items(s, n as nat);
    let q = p.drop_first();
    assert(p[0].2);
    assert(s[1] == a[0]);
    assert(!q[0].2);
    assert(drop_lead(q) == q);
    assert(drop_lead(p) == q);
    let r = q.drop_last();
    assert(q.last().2);
    assert(s[n - 2] == a.last());
    assert(!r.last().2);
    assert(drop_trail(r) == r);
    assert(drop_trail(q) == r);
    assert(trimmed(p) =~= shift_ranges(char_slots(a.len()), 1));
}

/// A paragraph break `\P` after plain text takes one slot covering its two
/// characters, between the slots of the text before it and those of the
/// text after it (moved past the break); a raw line break likewise takes
/// one slot of one character.
pub proof fn lemma_break_slots(a: Seq<char>, b: Seq<char>)
    requires
        plain_text(a),
    ensures
        visible_slots(a + seq!['\\', 'P'] + b) == char_slots(a.len()) + seq![
            (a.len() as int, a.len() as int + 2),
        ] + shift_ranges(visible_slots(b), a.len() as int + 2),
        visible_slots(a + seq!['\n'] + b) == char_slots(a.len()) + seq![(a.len() as int, a.len() as int + 1)]
            + shift_ranges(visible_slots(b), a.len() as int + 1),
{
    let n = a.len() as int;
    let p1 = a + seq!['\\', 'P'];
    let s1 = p1 + b;
    assert(s1 =~= a + seq!['\\', 'P'] + b);
    assert forall|i: int| 0 <= i < n implies #[trigger] s1[i] == a[i] by {}
    assert(char_items(s1, 0) =~= Seq::<(int, int, bool)>::empty());
    lemma_plain_run(s1, 0, n);
    assert(s1[n] == '\\' && s1[n + 1] == 'P');
    assert(token_at(s1, n) == Token::Break { end: n + 2 });
    lemma_plain_trimmed(s1, a);
    assert(shift_items(Seq::<(int, int, bool)>::empty(), n + 2) =~= Seq::<(int, int, bool)>::empty());
    lemma_slots_shift(p1, b, 0, Seq::empty());
    let p2 = a + seq!['\n'];
    let s2 = p2 + b;
    assert(s2 =~= a + seq!['\n'] + b);
    assert forall|i: int| 0 <= i < n implies #[trigger] s2[i] == a[i] by {}
    assert(char_items(s2, 0) =~= Seq::<(int, int, bool)>::empty());
    lemma_plain_run(s2, 0, n);
    assert(s2[n] == '\n');
    assert(token_at(s2, n) == Token::Break { end: n + 1 });
    lemma_plain_trimmed(s2, a);
    assert(shift_items(Seq::<(int, int, bool)>::empty(), n + 1) =~= Seq::<(int, int, bool)>::empty());
    lemma_slots_shift(p2, b, 0, Seq::empty());
}

pub proof fn lemma_skip_code(s: Seq<char>, j: int)
    requires
        0 <= j,
    ensures
        j <= skip_code(s, j) || j > s.len(),
        skip_code(s, j) <= s.len(),
    decreases s.len() - j,
{
    if j < s.len() && s[j] != ';' {
        lemma_skip_code(s, j + 1);
    }
}

/// The token at a character, as the scan reads it.
pub enum ScanToken {
    Glyph { end: usize, next: usize, space: bool },
    Break { end: usize },
    Skip { next: usize },
}

impl ScanToken {
    pub open spec fn as_token(self) -> Token {
        match self {
            ScanToken::Glyph { end, next, space } => Token::Glyph { end: end as int, next: next as int, space },
            ScanToken::Break { end } => Token::Break { end: end as int },
            ScanToken::Skip { next } => Token::Skip { next: next as int },
        }
    }
}

fn is_space_char(c: char) -> (b: bool)
    ensures
        b == is_space_glyph(c),
{
    c == ' ' || c == '\u{00A0}'
}

/// Read the token at character `k`.
fn scan_token(v: &Vec<char>, k: usize) -> (t: ScanToken)
    requires
        k < v@.len(),
    ensures
        t.as_token() == token_at(v@, k as int),
{
    let n = v.len();
    let c = v[k];
    if c == '\\' {
        if k + 1 >= n {
            ScanToken::Skip { next: n }
        } else {
            let d = v[k + 1];
            if d == 'P' || d == 'n' || d == 'N' {
                ScanToken::Break { end: k + 2 }
            } else if d == '~' {
                ScanToken::Glyph { end: k + 2, next: k + 2, space: true }
            } else if d == '\\' || d == '{' || d == '}' {
                ScanToken::Glyph { end: k + 2, next: k + 2, space: false }
            } else if d == 'L' || d == 'l' || d == 'O' || d == 'o' || d == 'K' || d == 'k' {
                ScanToken::Skip { next: k + 2 }
            } else {
                let mut j = k + 2;
                while j < n && v[j] != ';'
                    invariant
                        n == v@.len(),
                        k + 2 <= j <= n,
                        skip_code(v@, j as int) == skip_code(v@, k + 2),
                    decreases n - j,
                {
                    j = j + 1;
                }
                if j < n {
                    j = j + 1;
                }
                ScanToken::Skip { next: j }
            }
        }
    } else if c == '{' || c == '}' {
        ScanToken::Skip { next: k + 1 }
    } else if c == '\n' || c == '\r' {
        ScanToken::Break { end: k + 1 }
    } else if c == '%' && k + 1 < n && v[k + 1] == '%' {
        if k + 2 >= n {
            ScanToken::Glyph { end: k + 1, next: k + 2, space: false }
        } else if '0' <= v[k + 2] && v[k + 2] <= '9' {
            let mut m: usize = 1;
            if k + 3 < n && '0' <= v[k + 3] && v[k + 3] <= '9' {
                m = 2;
                if k + 4 < n && '0' <= v[k + 4] && v[k + 4] <= '9' {
                    m = 3;
                }
            }
            assert(m == digit_run(v@, k + 2));
            ScanToken::Glyph { end: k + 2 + m, next: k + 2 + m, space: false }
        } else {
            ScanToken::Glyph { end: k + 3, next: k + 3, space: is_space_char(v[k + 2]) }
        }
    } else {
        ScanToken::Glyph { end: k + 1, next: k + 1, space: is_space_char(c) }
    }
}

/// The byte offset of character `to`, counted on from character `from` at
/// byte `o`.
fn advance(v: &Vec<char>, from: usize, o: usize, to: usize) -> (r: usize)
    requires
        from <= to <= v@.len(),
        o == byte_at(v@, from as int),
        utf8_len(v@) <= usize::MAX,
    ensures
        r == byte_at(v@, to as int),
{
    let mut i = from;
    let mut r = o;
    while i < to
        invariant
            from <= i <= to <= v@.len(),
            r == byte_at(v@, i as int),
            utf8_len(v@) <= usize::MAX,
        decreases to - i,
    {
        proof {
            lemma_byte_at_next(v@, i as int);
            lemma_byte_at_mono(v@, i + 1, v@.len() as int);
            assert(v@.take(v@.len() as int) =~= v@);
        }
        r = r + char_width(v[i]);
        i = i + 1;
    }
    r
}

/// Append the byte spans of a paragraph's visible characters, spaces at its
/// start and end left out. `para` holds the byte spans of the items `gp`.
fn flush_paragraph(
    result: &mut Vec<(usize, usize)>,
    para: &Vec<(usize, usize, bool)>,
    Ghost(s): Ghost<Seq<char>>,
    Ghost(gp): Ghost<Seq<(int, int, bool)>>,
)
    requires
        para@.len() == gp.len(),
        forall|i: int|
            0 <= i < gp.len() ==> #[trigger] para@[i] == (
                byte_at(s, gp[i].0) as usize,
                byte_at(s, gp[i].1) as usize,
                gp[i].2,
            ),
    ensures
        final(result)@ == old(result)@ + byte_spans(s, trimmed(gp)),
{
    let n = para.len();
    let mut lo: usize = 0;
    proof {
        assert(gp.skip(0) =~= gp);
    }
    while lo < n && para[lo].2
        invariant
            n == para@.len() == gp.len(),
            lo <= n,
            drop_lead(gp) == drop_lead(gp.skip(lo as int)),
            forall|i: int|
                0 <= i < gp.len() ==> #[trigger] para@[i] == (
                    byte_at(s, gp[i].0) as usize,
                    byte_at(s, gp[i].1) as usize,
                    gp[i].2,
                ),
        decreases n - lo,
    {
        assert(gp.skip(lo as int).drop_first() =~= gp.skip(lo + 1));
        assert(gp.skip(lo as int)[0] == gp[lo as int]);
        lo = lo + 1;
    }
    proof {
        if lo < n {
            assert(gp.skip(lo as int)[0] == gp[lo as int]);
        }
        assert(drop_lead(gp) == gp.skip(lo as int));
    }
    let ghost q = gp.skip(lo as int);
    let mut hi: usize = n;
    proof {
        assert(q.take(q.len() as int) =~= q);
    }
    while hi > lo && para[hi - 1].2
        invariant
            n == para@.len() == gp.len(),
            lo <= hi <= n,
            q == gp.skip(lo as int),
            drop_trail(q) == drop_trail(q.take(hi - lo)),
            forall|i: int|
                0 <= i < gp.len() ==> #[trigger] para@[i] == (
                    byte_at(s, gp[i].0) as usize,
                    byte_at(s, gp[i].1) as usize,
                    gp[i].2,
                ),
        decreases hi,
    {
        assert(q.take(hi - lo).drop_last() =~= q.take(hi - 1 - lo));
        assert(q.take(hi - lo).last() == gp[hi - 1]);
        hi = hi - 1;
    }
    proof {
        if hi > lo {
            assert(q.take(hi - lo).last() == gp[hi - 1]);
        }
        assert(drop_trail(q) == q.take(hi - lo));
    }
    let ghost t = q.take(hi - lo);
    let ghost start = result@;
    let mut i = lo;
    proof {
        assert(t.take(0).map_values(|x: (int, int, bool)| (x.0, x.1)) =~= Seq::<(int, int)>::empty());
        assert(start + byte_spans(s, Seq::<(int, int)>::empty()) =~= start);
    }
    while i < hi
        invariant
            n == para@.len() == gp.len(),
            lo <= i <= hi <= n,
            t == gp.subrange(lo as int, hi as int),
            result@ == start + byte_spans(s, t.take(i - lo).map_values(|x: (int, int, bool)| (x.0, x.1))),
            forall|j: int|
                0 <= j < gp.len() ==> #[trigger] para@[j] == (
                    byte_at(s, gp[j].0) as usize,
                    byte_at(s, gp[j].1) as usize,
                    gp[j].2,
                ),
        decreases hi - i,
    {
        let e = para[i];
        result.push((e.0, e.1));
        proof {
            let f = |x: (int, int, bool)| (x.0, x.1);
            assert(t.take(i + 1 - lo) =~= t.take(i - lo).push(gp[i as int]));
            assert(t.take(i + 1 - lo).map_values(f) =~= t.take(i - lo).map_values(f).push((gp[i as int].0, gp[i as int].1)));
            assert(result@ =~= start + byte_spans(s, t.take(i + 1 - lo).map_values(f)));
        }
        i = i + 1;
    }
    proof {
        assert(t =~= gp.subrange(lo as int, hi as int));
        assert(t.take(hi - lo) =~= t);
    }
}

/// Map each visible character of a raw MText value to its byte span
/// `(start, end)` in that raw string, in the same reading order the layout
/// counts glyph boxes: paragraphs split on `\P`/`\n`/`\N` and raw line
/// breaks (each break takes a caret slot), spaces at the start and end of
/// each paragraph trimmed, inline codes skipped. Used by the formatting
/// splice path.
pub fn visible_spans(raw: &str) -> (r: Vec<(usize, usize)>)
    requires
        utf8_len(raw@) <= usize::MAX,
    ensures
        r@ == byte_spans(raw@, visible_slots(raw@)),
{
    let v = chars_of(raw);
    let ghost s = raw@;
    let n = v.len();
    let mut result: Vec<(usize, usize)> = Vec::new();
    let mut para: Vec<(usize, usize, bool)> = Vec::new();
    let ghost mut gp: Seq<(int, int, bool)> = Seq::empty();
    let mut k: usize = 0;
    let mut o: usize = 0;
    proof {
        assert(s.take(0) =~= Seq::<char>::empty());
        assert(result@ + byte_spans(s, visible_slots(s)) =~= byte_spans(s, visible_slots(s)));
    }
    while k < n
        invariant
            v@ == s,
            n == s.len(),
            utf8_len(s) <= usize::MAX,
            0 <= k <= n,
            o == byte_at(s, k as int),
            para@.len() == gp.len(),
            forall|i: int|
                0 <= i < gp.len() ==> #[trigger] para@[i] == (
                    byte_at(s, gp[i].0) as usize,
                    byte_at(s, gp[i].1) as usize,
                    gp[i].2,
                ),
            result@ + byte_spans(s, slots_from(s, k as int, gp)) == byte_spans(s, visible_slots(s)),
        decreases n - k,
    {
        let ghost k0 = k as int;
        proof {
            lemma_token(s, k0);
        }
        let t = scan_token(&v, k);
        match t {
            ScanToken::Glyph { end, next, space } => {
                let oe = advance(&v, k, o, end);
                let on = advance(&v, end, oe, next);
                let ghost gp0 = gp;
                para.push((o, oe, space));
                proof {
                    gp = gp.push((k0, end as int, space));
                    assert forall|i: int| 0 <= i < gp.len() implies #[trigger] para@[i] == (
                        byte_at(s, gp[i].0) as usize,
                        byte_at(s, gp[i].1) as usize,
                        gp[i].2,
                    ) by {
                        if i < gp0.len() {
                            assert(gp[i] == gp0[i]);
                        }
                    }
                }
                k = next;
                o = on;
            },
            ScanToken::Break { end } => {
                let ghost before = result@;
                flush_paragraph(&mut result, &para, Ghost(s), Ghost(gp));
                let oe = advance(&v, k, o, end);
                result.push((o, oe));
                proof {
                    let f = |x: (int, int)| (byte_at(s, x.0) as usize, byte_at(s, x.1) as usize);
                    let rest = slots_from(s, end as int, Seq::empty());
                    assert(slots_from(s, k0, gp) == trimmed(gp) + seq![(k0, end as int)] + rest);
                    assert((trimmed(gp) + seq![(k0, end as int)] + rest).map_values(f)
                        =~= trimmed(gp).map_values(f) + seq![(o, oe)] + rest.map_values(f));
                    assert(result@ =~= before + trimmed(gp).map_values(f) + seq![(o, oe)]);
                    gp = Seq::empty();
                }
                para = Vec::new();
                k = end;
                o = oe;
            },
            ScanToken::Skip { next } => {
                o = advance(&v, k, o, next);
                k = next;
            },
        }
    }
    let ghost before = result@;
    flush_paragraph(&mut result, &para, Ghost(s), Ghost(gp));
    proof {
        assert(slots_from(s, k as int, gp) == trimmed(gp));
    }
    result
}

} // verus!
