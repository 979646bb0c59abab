//! Text helpers shared by TEXT and MTEXT entities: DXF `%%` special
//! characters, font-name stems, decoration markers and the word / space atoms
//! the MText layout wraps on.

use vstd::prelude::*;
use crate::text_util::{chars_of, string_from_chars, trim, trim_bounds};

verus! {

/// Paragraph alignment encoded inline via `\p...q[lcrjd]...;`.
#[derive(Clone, Copy, Debug, PartialEq, Eq)]
pub enum ParagraphAlign {
    Left,
    Center,
    Right,
    Justify,
    Distribute,
}

/// Tab-stop alignment kind (from `\pt<L|C|R><pos>` entries).
#[derive(Clone, Copy, Debug, PartialEq, Eq)]
pub enum TabKind {
    Left,
    Center,
    Right,
}

/// Vertical anchor of an MText block at its insertion point.
#[derive(Clone, Copy, Debug, PartialEq, Eq)]
pub enum MTextVAnchor {
    /// Block top edge at insertion (first line's cap = insertion.y).
    Top,
    /// Block midpoint at insertion.
    Middle,
    /// Block bottom edge at insertion (last line's baseline = insertion.y).
    Bottom,
    /// First line's vertical centre at insertion.
    MiddleOfTopLine,
    /// Last line's vertical centre at insertion.
    MiddleOfBottomLine,
    /// First line's baseline at insertion.
    BottomOfTopLine,
}

/// One run of MText content.
#[derive(Clone, Debug, PartialEq)]
pub enum MTextRunKind {
    /// Renderable glyph text.
    Glyphs(String),
    /// `\t` — jump to the next tab stop.
    Tab,
}

/// One unit the MText layout wraps on.
#[derive(Clone, Debug, PartialEq)]
pub enum AtomKind {
    Word(String),
    Space,
    Tab,
}

pub enum AtomView {
    Word(Seq<char>),
    Space,
    Tab,
}

impl View for AtomKind {
    type V = AtomView;

    open spec fn view(&self) -> AtomView {
        match self {
            AtomKind::Word(w) => AtomView::Word(w@),
            AtomKind::Space => AtomView::Space,
            AtomKind::Tab => AtomView::Tab,
        }
    }
}

// ── DXF special characters ───────────────────────────────────────────────

/// An ASCII decimal digit.
pub open spec fn is_digit(c: char) -> bool {
    '0' <= c && c <= '9'
}

/// ASCII lower-casing of one character (`char::to_ascii_lowercase`).
pub open spec fn ascii_lower(c: char) -> char {
    if 'A' <= c && c <= 'Z' {
        ((c as u32) + 32) as char
    } else {
        c
    }
}

/// ASCII lower-casing of one character.
pub fn to_ascii_lower(c: char) -> (r: char)
    ensures
        r == ascii_lower(c),
{
    if 'A' <= c && c <= 'Z' {
        ((c as u8) + 32) as char
    } else {
        c
    }
}

/// The number of ASCII digits (at most 3) starting at `j`.
pub open spec fn digits_at(s: Seq<char>, j: int) -> int {
    if !(0 <= j < s.len() && is_digit(s[j])) {
        0
    } else if !(j + 1 < s.len() && is_digit(s[j + 1])) {
        1
    } else if !(j + 2 < s.len() && is_digit(s[j + 2])) {
        2
    } else {
        3
    }
}

/// The value of the three ASCII digits at `j`.
pub open spec fn three_digit_value(s: Seq<char>, j: int) -> int {
    ((s[j] as int) - 48) * 100 + ((s[j + 1] as int) - 48) * 10 + ((s[j + 2] as int) - 48)
}

/// The expansion of DXF `%%x` codes in `s` from character `k` on:
/// `%%d` → `°`, `%%p` → `±`, `%%c` → `⌀` (any case), `%%u` / `%%o` removed,
/// `%%%%` → `%`, `%%nnn` (three decimal digits) → the character `nnn`; any
/// other `%%` passes through unchanged.
pub open spec fn dxf_expand(s: Seq<char>, k: int) -> Seq<char>
    decreases s.len() - k,
{
    if k < 0 || k >= s.len() {
        Seq::empty()
    } else if !(s[k] == '%' && k + 1 < s.len() && s[k + 1] == '%') {
        seq![s[k]] + dxf_expand(s, k + 1)
    } else if k + 2 >= s.len() {
        seq!['%', '%']
    } else {
        let d = ascii_lower(s[k + 2]);
        if d == 'd' {
            seq!['°'] + dxf_expand(s, k + 3)
        } else if d == 'p' {
            seq!['±'] + dxf_expand(s, k + 3)
        } else if d == 'c' {
            seq!['⌀'] + dxf_expand(s, k + 3)
        } else if d == 'u' || d == 'o' {
            dxf_expand(s, k + 3)
        } else if d == '%' {
            if k + 3 < s.len() && s[k + 3] == '%' {
                seq!['%'] + dxf_expand(s, k + 4)
            } else {
                seq!['%', '%'] + dxf_expand(s, k + 2)
            }
        } else if is_digit(d) {
            let n = digits_at(s, k + 2);
            if n == 3 {
                seq![(three_digit_value(s, k + 2) as u32) as char] + dxf_expand(s, k + 5)
            } else {
                seq!['%', '%'] + s.subrange(k + 2, k + 2 + n) + dxf_expand(s, k + 2 + n)
            }
        } else {
            seq!['%', '%'] + dxf_expand(s, k + 2)
        }
    }
}

/// Text without any `%%` pair comes back unchanged.
pub proof fn lemma_plain_text_unchanged(s: Seq<char>, k: int)
    requires
        0 <= k <= s.len(),
        forall|i: int| 0 <= i < s.len() - 1 ==> !(#[trigger] s[i] == '%' && s[i + 1] == '%'),
    ensures
        dxf_expand(s, k) == s.skip(k),
    decreases s.len() - k,
{
    if k < s.len() {
        lemma_plain_text_unchanged(s, k + 1);
        assert(s.skip(k) =~= seq![s[k]] + s.skip(k + 1));
    } else {
        assert(s.skip(k) =~= Seq::<char>::empty());
    }
}

/// The expansion from a position depends only on the text from there on:
/// whatever precedes `t`, expanding `p + t` from inside `t` gives what
/// expanding `t` alone gives.
pub proof fn lemma_dxf_suffix(p: Seq<char>, t: Seq<char>, j: int)
    requires
        0 <= j,
    ensures
        dxf_expand(p + t, p.len() + j) == dxf_expand(t, j),
    decreases t.len() - j,
{
    let s = p + t;
    let k = p.len() + j;
    if j < t.len() {
        assert forall|i: int| j <= i < t.len() implies #[trigger] s[p.len() + i] == t[i] by {}
        lemma_dxf_suffix(p, t, j + 1);
        if j + 2 <= t.len() {
            lemma_dxf_suffix(p, t, j + 2);
        }
        if j + 3 <= t.len() {
            lemma_dxf_suffix(p, t, j + 3);
        }
        if j + 4 <= t.len() {
            lemma_dxf_suffix(p, t, j + 4);
        }
        if j + 5 <= t.len() {
            lemma_dxf_suffix(p, t, j + 5);
        }
        if j + 2 < t.len() {
            assert(s[k + 2] == t[j + 2]);
            assert(digits_at(s, k + 2) == digits_at(t, j + 2));
            let n = digits_at(t, j + 2);
            if 0 < n < 3 {
                assert(s.subrange(k + 2, k + 2 + n) =~= t.subrange(j + 2, j + 2 + n));
                lemma_dxf_suffix(p, t, j + 2 + n);
            }
            if n == 3 {
                assert(three_digit_value(s, k + 2) == three_digit_value(t, j + 2));
            }
        }
    }
}

/// The glyph that the code letter `x` of a `%%x` sequence stands for,
/// whatever its case: `°` for `d`, `±` for `p`, `⌀` for `c`.
pub open spec fn dxf_glyph(x: char) -> Option<char> {
    if x == 'd' || x == 'D' {
        Some('°')
    } else if x == 'p' || x == 'P' {
        Some('±')
    } else if x == 'c' || x == 'C' {
        Some('⌀')
    } else {
        None
    }
}

/// Wherever the scan meets `%%x` with `x` one of `c C d D p P`, the three
/// characters are replaced by the one glyph `x` names (`⌀`, `°`, `±`), in
/// either case of the letter, and the scan goes on right after them; with
/// `x` one of `u U o O` the three characters are dropped.
pub proof fn lemma_dxf_code_replaced(s: Seq<char>, k: int)
    requires
        0 <= k,
        k + 2 < s.len(),
        s[k] == '%',
        s[k + 1] == '%',
    ensures
        dxf_glyph(s[k + 2]) matches Some(g) ==> dxf_expand(s, k) == seq![g] + dxf_expand(
            s.skip(k + 3),
            0,
        ),
        (s[k + 2] == 'u' || s[k + 2] == 'U' || s[k + 2] == 'o' || s[k + 2] == 'O') ==> dxf_expand(
            s,
            k,
        ) == dxf_expand(s.skip(k + 3), 0),
{
    assert(ascii_lower('C') == 'c');
    assert(ascii_lower('D') == 'd');
    assert(ascii_lower('P') == 'p');
    assert(ascii_lower('U') == 'u');
    assert(ascii_lower('O') == 'o');
    assert(s =~= s.take(k + 3) + s.skip(k + 3));
    lemma_dxf_suffix(s.take(k + 3), s.skip(k + 3), 0);
}

/// A text that starts with `%%c` or `%%C` expands to `⌀` followed by the
/// expansion of the rest; likewise `%%d`/`%%D` give `°`, `%%p`/`%%P` give
/// `±`, and `%%u`/`%%U`/`%%o`/`%%O` give nothing: the code letter is read
/// without regard to case.
pub proof fn lemma_dxf_leading_code(t: Seq<char>)
    ensures
        dxf_expand(seq!['%', '%', 'c'] + t, 0) == seq!['⌀'] + dxf_expand(t, 0),
        dxf_expand(seq!['%', '%', 'C'] + t, 0) == seq!['⌀'] + dxf_expand(t, 0),
        dxf_expand(seq!['%', '%', 'd'] + t, 0) == seq!['°'] + dxf_expand(t, 0),
        dxf_expand(seq!['%', '%', 'D'] + t, 0) == seq!['°'] + dxf_expand(t, 0),
        dxf_expand(seq!['%', '%', 'p'] + t, 0) == seq!['±'] + dxf_expand(t, 0),
        dxf_expand(seq!['%', '%', 'P'] + t, 0) == seq!['±'] + dxf_expand(t, 0),
        dxf_expand(seq!['%', '%', 'u'] + t, 0) == dxf_expand(t, 0),
        dxf_expand(seq!['%', '%', 'U'] + t, 0) == dxf_expand(t, 0),
        dxf_expand(seq!['%', '%', 'o'] + t, 0) == dxf_expand(t, 0),
        dxf_expand(seq!['%', '%', 'O'] + t, 0) == dxf_expand(t, 0),
{
    lemma_dxf_leading_one(t, 'c');
    lemma_dxf_leading_one(t, 'C');
    lemma_dxf_leading_one(t, 'd');
    lemma_dxf_leading_one(t, 'D');
    lemma_dxf_leading_one(t, 'p');
    lemma_dxf_leading_one(t, 'P');
    lemma_dxf_leading_one(t, 'u');
    lemma_dxf_leading_one(t, 'U');
    lemma_dxf_leading_one(t, 'o');
    lemma_dxf_leading_one(t, 'O');
}

/// `%%%%` at the start of a text is one literal `%`; `%%` followed by three
/// decimal digits is the character with that decimal scalar value; `%%`
/// followed by any other character that names no code is kept as it is.
pub proof fn lemma_dxf_leading_other(t: Seq<char>, x: char, a: char, b: char, c: char)
    ensures
        dxf_expand(seq!['%', '%', '%', '%'] + t, 0) == seq!['%'] + dxf_expand(t, 0),
        is_digit(a) && is_digit(b) && is_digit(c) ==> dxf_expand(seq!['%', '%', a, b, c] + t, 0)
            == seq![((((a as int) - 48) * 100 + ((b as int) - 48) * 10 + ((c as int) - 48)) as u32) as char]
            + dxf_expand(t, 0),
        dxf_glyph(x) is None && !is_digit(x) && x != '%' && x != 'u' && x != 'U' && x != 'o' && x
            != 'O' ==> dxf_expand(seq!['%', '%', x] + t, 0) == seq!['%', '%'] + dxf_expand(
            seq![x] + t,
            0,
        ),
{
    let s1 = seq!['%', '%', '%', '%'] + t;
    lemma_dxf_suffix(seq!['%', '%', '%', '%'], t, 0);
    assert(ascii_lower('%') == '%');
    let s2 = seq!['%', '%', a, b, c] + t;
    lemma_dxf_suffix(seq!['%', '%', a, b, c], t, 0);
    if is_digit(a) && is_digit(b) && is_digit(c) {
        assert(ascii_lower(a) == a);
        assert(digits_at(s2, 2) == 3);
    }
    let s3 = seq!['%', '%', x] + t;
    lemma_dxf_suffix(seq!['%', '%'], seq![x] + t, 0);
    assert(seq!['%', '%'] + (seq![x] + t) =~= s3);
    if dxf_glyph(x) is None && !is_digit(x) && x != '%' && x != 'u' && x != 'U' && x != 'o' && x
        != 'O' {
        if 'A' <= x && x <= 'Z' {
            assert(ascii_lower(x) != 'd' && ascii_lower(x) != 'p' && ascii_lower(x) != 'c');
            assert(ascii_lower(x) != 'u' && ascii_lower(x) != 'o');
        }
        assert(!is_digit(ascii_lower(x)));
        assert(ascii_lower(x) != '%');
    }
}

proof fn lemma_dxf_leading_one(t: Seq<char>, x: char)
    ensures
        dxf_glyph(x) matches Some(g) ==> dxf_expand(seq!['%', '%', x] + t, 0) == seq![g]
            + dxf_expand(t, 0),
        (x == 'u' || x == 'U' || x == 'o' || x == 'O') ==> dxf_expand(seq!['%', '%', x] + t, 0)
            == dxf_expand(t, 0),
{
    let s = seq!['%', '%', x] + t;
    lemma_dxf_code_replaced(s, 0);
    assert(s.skip(3) =~= t);
}

/// `char::from_u32`: the character with scalar value `n` when `n` is a
/// Unicode scalar value (not a surrogate, at most `0x10FFFF`), else `None`.
#[verifier::external_body]
fn char_from_u32(n: u32) -> (r: Option<char>)
    ensures
        r is Some <==> (n < 0xD800 || (0xE000 <= n && n <= 0x10FFFF)),
        r matches Some(c) ==> c == n as char,
{
    char::from_u32(n)
}

/// Expand DXF `%%x` special-character sequences that appear in both TEXT and
/// MTEXT values:
/// - `%%d` / `%%D` → `°`
/// - `%%p` / `%%P` → `±`
/// - `%%c` / `%%C` → `⌀`
/// - `%%u` / `%%U` → underline toggle (stripped — not renderable with stroke fonts)
/// - `%%o` / `%%O` → overline toggle (stripped)
/// - `%%%%` → `%`
/// - `%%nnn` (3 decimal digits) → Unicode scalar `nnn`
/// Any unrecognised `%%x` is passed through unchanged.
pub fn resolve_dxf_special_chars(s: &str) -> (out: String)
    ensures
        out@ == dxf_expand(s@, 0),
{
    let v = chars_of(s);
    let n = v.len();
    let mut out: Vec<char> = Vec::new();
    let mut k: usize = 0;
    while k < n
        invariant
            v@ == s@,
            n == v@.len(),
            0 <= k <= n,
            out@ + dxf_expand(v@, k as int) == dxf_expand(v@, 0),
        decreases n - k,
    {
        let ghost prev = out@;
        let ghost k0 = k as int;
        let c = v[k];
        if !(c == '%' && k + 1 < n && v[k + 1] == '%') {
            out.push(c);
            proof {
                assert(prev + dxf_expand(v@, k0) =~= out@ + dxf_expand(v@, k0 + 1));
            }
            k = k + 1;
        } else if k + 2 >= n {
            out.push('%');
            out.push('%');
            proof {
                assert(dxf_expand(v@, n as int) =~= Seq::<char>::empty());
                assert(prev + dxf_expand(v@, k0) =~= out@ + dxf_expand(v@, n as int));
            }
            k = n;
        } else {
            let d = to_ascii_lower(v[k + 2]);
            if d == 'd' || d == 'p' || d == 'c' {
                let r = if d == 'd' {
                    '°'
                } else if d == 'p' {
                    '±'
                } else {
                    '⌀'
                };
                out.push(r);
                proof {
                    assert(prev + dxf_expand(v@, k0) =~= out@ + dxf_expand(v@, k0 + 3));
                }
                k = k + 3;
            } else if d == '%' {
                if k + 3 < n && v[k + 3] == '%' {
                    out.push('%');
                    proof {
                        assert(prev + dxf_expand(v@, k0) =~= out@ + dxf_expand(v@, k0 + 4));
                    }
                    k = k + 4;
                } else {
                    out.push('%');
                    out.push('%');
                    proof {
                        assert(prev + dxf_expand(v@, k0) =~= out@ + dxf_expand(v@, k0 + 2));
                    }
                    k = k + 2;
                }
            } else if d == 'u' || d == 'o' {
                k = k + 3;
            } else if '0' <= d && d <= '9' {
                let mut m: usize = 1;
                if k + 3 < n && '0' <= v[k + 3] && v[k + 3] <= '9' {
                    m = 2;
                    if k + 4 < n && '0' <= v[k + 4] && v[k + 4] <= '9' {
                        m = 3;
                    }
                }
                assert(m == digits_at(v@, k0 + 2));
                if m == 3 {
                    let value: u32 = (v[k + 2] as u32 - 48) * 100 + (v[k + 3] as u32 - 48) * 10 + (
                    v[k + 4] as u32 - 48);
                    assert(value == three_digit_value(v@, k0 + 2));
                    let ch = char_from_u32(value);
                    match ch {
                        Some(ch) => {
                            out.push(ch);
                            proof {
                                assert(value as char == ch);
                                assert(prev + dxf_expand(v@, k0) =~= out@ + dxf_expand(
                                    v@,
                                    k0 + 5,
                                ));
                            }
                        },
                        None => {},
                    }
                    k = k + 5;
                } else {
                    out.push('%');
                    out.push('%');
                    let mut j: usize = 0;
                    while j < m
                        invariant
                            v@ == s@,
                            n == v@.len(),
                            k0 + 2 + m <= n,
                            k == k0,
                            0 <= j <= m,
                            out@ == prev + seq!['%', '%'] + v@.subrange(k0 + 2, k0 + 2 + j),
                        decreases m - j,
                    {
                        out.push(v[k + 2 + j]);
                        proof {
                            assert(v@.subrange(k0 + 2, k0 + 2 + j + 1) =~= v@.subrange(
                                k0 + 2,
                                k0 + 2 + j,
                            ).push(v@[k0 + 2 + j]));
                        }
                        j = j + 1;
                    }
                    proof {
                        assert(prev + dxf_expand(v@, k0) =~= out@ + dxf_expand(v@, k0 + 2 + m));
                    }
                    k = k + 2 + m;
                }
            } else {
                out.push('%');
                out.push('%');
                proof {
                    assert(prev + dxf_expand(v@, k0) =~= out@ + dxf_expand(v@, k0 + 2));
                }
                k = k + 2;
            }
        }
    }
    proof {
        assert(dxf_expand(v@, n as int) =~= Seq::<char>::empty());
        assert(out@ + Seq::<char>::empty() =~= out@);
    }
    string_from_chars(out.as_slice())
}

// ── Font-name stems ──────────────────────────────────────────────────────

/// The part of `s` after its last `/` or `\` (all of `s` when it has none).
pub open spec fn after_last_sep(s: Seq<char>) -> Seq<char>
    decreases s.len(),
{
    if s.len() == 0 {
        s
    } else if s.last() == '/' || s.last() == '\\' {
        Seq::empty()
    } else {
        after_last_sep(s.drop_last()).push(s.last())
    }
}

/// The part of `s` before its first `.` (all of `s` when it has none).
pub open spec fn before_first_dot(s: Seq<char>) -> Seq<char>
    decreases s.len(),
{
    if s.len() == 0 || s[0] == '.' {
        Seq::empty()
    } else {
        seq![s[0]] + before_first_dot(s.drop_first())
    }
}

/// Font-name stem: drop any path and extension, so a `\F` font path like
/// `C:\\fonts\\arial.ttf` and a plain `\f` name `arial` resolve to the same font.
pub fn font_stem(name: &str) -> (r: String)
    ensures
        r@ == before_first_dot(after_last_sep(name@)),
{
    let v = chars_of(name);
    let n = v.len();
    let mut start = n;
    proof {
        assert(v@.subrange(0, n as int) =~= v@);
        assert(v@.subrange(n as int, n as int) =~= Seq::<char>::empty());
        assert(after_last_sep(v@) + Seq::<char>::empty() =~= after_last_sep(v@));
    }
    while start > 0 && v[start - 1] != '/' && v[start - 1] != '\\'
        invariant
            v@ == name@,
            n == v@.len(),
            0 <= start <= n,
            after_last_sep(v@) == after_last_sep(v@.subrange(0, start as int)) + v@.subrange(
                start as int,
                n as int,
            ),
        decreases start,
    {
        proof {
            let t = v@.subrange(0, start as int);
            assert(t.drop_last() =~= v@.subrange(0, start - 1));
            assert(v@.subrange(start - 1, n as int) =~= seq![t.last()] + v@.subrange(
                start as int,
                n as int,
            ));
            assert(after_last_sep(t) == after_last_sep(t.drop_last()).push(t.last()));
            assert(after_last_sep(t.drop_last()).push(t.last()) + v@.subrange(start as int, n as int)
                =~= after_last_sep(t.drop_last()) + v@.subrange(start - 1, n as int));
        }
        start = start - 1;
    }
    proof {
        assert(v@.subrange(0, n as int) =~= v@);
        let t = v@.subrange(0, start as int);
        if start > 0 {
            assert(after_last_sep(t) =~= Seq::<char>::empty());
        } else {
            assert(t =~= Seq::<char>::empty());
        }
        assert(after_last_sep(v@) =~= v@.subrange(start as int, n as int));
    }
    let mut end = start;
    while end < n && v[end] != '.'
        invariant
            v@ == name@,
            n == v@.len(),
            0 <= start <= end <= n,
            before_first_dot(v@.subrange(start as int, n as int)) == v@.subrange(
                start as int,
                end as int,
            ) + before_first_dot(v@.subrange(end as int, n as int)),
        decreases n - end,
    {
        proof {
            let t = v@.subrange(end as int, n as int);
            assert(t.drop_first() =~= v@.subrange(end + 1, n as int));
            assert(v@.subrange(start as int, end + 1) =~= v@.subrange(start as int, end as int)
                + seq![t[0]]);
        }
        end = end + 1;
    }
    proof {
        let t = v@.subrange(end as int, n as int);
        assert(before_first_dot(t) =~= Seq::<char>::empty());
    }
    crate::text_util::string_of_range(&v, start, end)
}

/// No path separator in `s`.
pub open spec fn no_sep(s: Seq<char>) -> bool {
    forall|i: int| 0 <= i < s.len() ==> #[trigger] s[i] != '/' && s[i] != '\\'
}

proof fn lemma_after_sep_tail(p: Seq<char>, y: Seq<char>)
    requires
        p.len() > 0,
        p.last() == '/' || p.last() == '\\',
        no_sep(y),
    ensures
        after_last_sep(p + y) == y,
    decreases y.len(),
{
    if y.len() == 0 {
        assert(p + y =~= p);
    } else {
        assert((p + y).drop_last() =~= p + y.drop_last());
        lemma_after_sep_tail(p, y.drop_last());
        assert(y.drop_last().push(y.last()) =~= y);
    }
}

proof fn lemma_no_sep_whole(y: Seq<char>)
    requires
        no_sep(y),
    ensures
        after_last_sep(y) == y,
    decreases y.len(),
{
    if y.len() > 0 {
        lemma_no_sep_whole(y.drop_last());
        assert(y.drop_last().push(y.last()) =~= y);
    }
}

proof fn lemma_before_dot(n: Seq<char>, e: Seq<char>)
    requires
        forall|i: int| 0 <= i < n.len() ==> #[trigger] n[i] != '.',
    ensures
        before_first_dot(n + seq!['.'] + e) == n,
        before_first_dot(n) == n,
    decreases n.len(),
{
    if n.len() > 0 {
        lemma_before_dot(n.drop_first(), e);
        assert((n + seq!['.'] + e).drop_first() =~= n.drop_first() + seq!['.'] + e);
        assert(seq![n[0]] + n.drop_first() =~= n);
    } else {
        assert(n + seq!['.'] + e =~= seq!['.'] + e);
    }
}

/// A font given by a path and file name with an extension has the stem of
/// its bare name: the folders before the last `/` or `\` and everything
/// from the first `.` of the file name on are dropped, so
/// `C:\fonts\arial.ttf` and `arial` name the same font.
pub proof fn lemma_font_stem_of_path(dir: Seq<char>, sep: char, stem: Seq<char>, ext: Seq<char>)
    requires
        sep == '/' || sep == '\\',
        no_sep(stem),
        no_sep(ext),
        forall|i: int| 0 <= i < stem.len() ==> #[trigger] stem[i] != '.',
    ensures
        before_first_dot(after_last_sep(dir + seq![sep] + stem + seq!['.'] + ext)) == stem,
        before_first_dot(after_last_sep(dir + seq![sep] + stem)) == stem,
        before_first_dot(after_last_sep(stem + seq!['.'] + ext)) == stem,
        before_first_dot(after_last_sep(stem)) == stem,
{
    let file = stem + seq!['.'] + ext;
    assert(no_sep(file)) by {
        assert forall|i: int| 0 <= i < file.len() implies #[trigger] file[i] != '/' && file[i] != '\\' by {
            if i < stem.len() {
                assert(file[i] == stem[i]);
            } else if i > stem.len() {
                assert(file[i] == ext[i - stem.len() - 1]);
            }
        }
    }
    let p = dir + seq![sep];
    lemma_after_sep_tail(p, file);
    assert(dir + seq![sep] + stem + seq!['.'] + ext =~= p + file);
    lemma_after_sep_tail(p, stem);
    lemma_no_sep_whole(file);
    lemma_no_sep_whole(stem);
    lemma_before_dot(stem, ext);
}

// ── Decorations ──────────────────────────────────────────────────────────

/// The stroke decorations of a text run.
#[derive(Clone, Copy, Debug, PartialEq, Eq)]
pub struct Decorations {
    pub underline: bool,
    pub overline: bool,
    pub strike: bool,
}

/// `text` wrapped in the MText decoration markers of `d`: `\L \O \K` before,
/// `\l \o \k` after, in that order.
pub open spec fn decorated_text(text: Seq<char>, d: Decorations) -> Seq<char> {
    (if d.underline { seq!['\\', 'L'] } else { Seq::empty() }) + (if d.overline {
        seq!['\\', 'O']
    } else {
        Seq::empty()
    }) + (if d.strike { seq!['\\', 'K'] } else { Seq::empty() }) + text + (if d.underline {
        seq!['\\', 'l']
    } else {
        Seq::empty()
    }) + (if d.overline { seq!['\\', 'o'] } else { Seq::empty() }) + (if d.strike {
        seq!['\\', 'k']
    } else {
        Seq::empty()
    })
}

/// Appends a backslash and `c`.
fn push_code(s: &mut Vec<char>, c: char)
    ensures
        final(s)@ == old(s)@ + seq!['\\', c],
{
    s.push('\\');
    s.push(c);
    assert(s@ =~= old(s)@ + seq!['\\', c]);
}

/// Wrap a run's glyph text with MText decoration markers so the stroke
/// tessellator emits the underline / overline / strikethrough strokes.
pub fn decorated(text: &str, d: &Decorations) -> (r: String)
    ensures
        r@ == decorated_text(text@, *d),
{
    let mut s: Vec<char> = Vec::new();
    if d.underline {
        push_code(&mut s, 'L');
    }
    if d.overline {
        push_code(&mut s, 'O');
    }
    if d.strike {
        push_code(&mut s, 'K');
    }
    let body = chars_of(text);
    let ghost before = s@;
    let mut i: usize = 0;
    while i < body.len()
        invariant
            0 <= i <= body@.len(),
            s@ == before + body@.take(i as int),
        decreases body@.len() - i,
    {
        s.push(body[i]);
        proof {
            assert(body@.take(i + 1) =~= body@.take(i as int).push(body@[i as int]));
        }
        i = i + 1;
    }
    proof {
        assert(body@.take(body@.len() as int) =~= body@);
    }
    if d.underline {
        push_code(&mut s, 'l');
    }
    if d.overline {
        push_code(&mut s, 'o');
    }
    if d.strike {
        push_code(&mut s, 'k');
    }
    proof {
        assert(s@ =~= decorated_text(text@, *d));
    }
    string_from_chars(s.as_slice())
}

// ── Layout atoms ─────────────────────────────────────────────────────────

/// A word break for the layout: a space or a no-break space.
pub open spec fn is_break_space(c: char) -> bool {
    c == ' ' || c == '\u{00A0}'
}

/// The atoms of glyph text `s` from character `k` on, where `word` holds the
/// characters of the word in progress: each space becomes a `Space` atom and
/// every maximal run of other characters a `Word`.
pub open spec fn atoms_from(s: Seq<char>, k: int, word: Seq<char>) -> Seq<AtomView>
    decreases s.len() - k,
{
    if k < 0 || k >= s.len() {
        if word.len() > 0 {
            seq![AtomView::Word(word)]
        } else {
            Seq::empty()
        }
    } else if is_break_space(s[k]) {
        (if word.len() > 0 {
            seq![AtomView::Word(word)]
        } else {
            Seq::empty()
        }) + seq![AtomView::Space] + atoms_from(s, k + 1, Seq::empty())
    } else {
        atoms_from(s, k + 1, word.push(s[k]))
    }
}

/// The view of a list of atoms.
pub open spec fn atoms_view(a: Seq<AtomKind>) -> Seq<AtomView> {
    a.map_values(|x: AtomKind| x@)
}

/// The characters an atom stands for: a word its characters, a space one
/// space, a tab one tab.
pub open spec fn atom_chars(a: AtomView) -> Seq<char> {
    match a {
        AtomView::Word(w) => w,
        AtomView::Space => seq![' '],
        AtomView::Tab => seq!['\t'],
    }
}

/// The characters a list of atoms stands for, in order.
pub open spec fn atoms_text(a: Seq<AtomView>) -> Seq<char>
    decreases a.len(),
{
    if a.len() == 0 {
        Seq::empty()
    } else {
        atom_chars(a[0]) + atoms_text(a.drop_first())
    }
}

/// Every word atom is non-empty and holds no break space.
pub open spec fn words_unbroken(a: Seq<AtomView>) -> bool {
    forall|i: int|
        0 <= i < a.len() ==> (#[trigger] a[i] matches AtomView::Word(w) ==> w.len() > 0 && forall|
            j: int,
        | 0 <= j < w.len() ==> !is_break_space(#[trigger] w[j]))
}

proof fn lemma_atoms_text_concat(x: Seq<AtomView>, y: Seq<AtomView>)
    ensures
        atoms_text(x + y) == atoms_text(x) + atoms_text(y),
    decreases x.len(),
{
    if x.len() == 0 {
        assert(x + y =~= y);
    } else {
        assert((x + y).drop_first() =~= x.drop_first() + y);
        lemma_atoms_text_concat(x.drop_first(), y);
        assert((x + y)[0] == x[0]);
    }
}

proof fn lemma_atoms_from(s: Seq<char>, k: int, w: Seq<char>)
    requires
        0 <= k <= s.len(),
        forall|i: int| 0 <= i < s.len() ==> #[trigger] s[i] != '\u{00A0}',
        forall|j: int| 0 <= j < w.len() ==> !is_break_space(#[trigger] w[j]),
    ensures
        atoms_text(atoms_from(s, k, w)) == w + s.skip(k),
        words_unbroken(atoms_from(s, k, w)),
    decreases s.len() - k,
{
    let head = if w.len() > 0 {
        seq![AtomView::Word(w)]
    } else {
        Seq::<AtomView>::empty()
    };
    assert(atoms_text(Seq::<AtomView>::empty()) =~= Seq::<char>::empty());
    assert(atoms_text(head) == w) by {
        if w.len() == 0 {
            assert(w =~= Seq::<char>::empty());
        } else {
            assert(head.drop_first() =~= Seq::<AtomView>::empty());
            assert(w + Seq::<char>::empty() =~= w);
        }
    }
    assert(words_unbroken(head));
    if k >= s.len() {
        assert(s.skip(k) =~= Seq::<char>::empty());
        assert(w + s.skip(k) =~= w);
    } else if is_break_space(s[k]) {
        assert(s[k] == ' ');
        lemma_atoms_from(s, k + 1, Seq::empty());
        let rest = atoms_from(s, k + 1, Seq::empty());
        let sp = seq![AtomView::Space];
        assert(atoms_text(sp) == seq![' ']) by {
            assert(sp.drop_first() =~= Seq::<AtomView>::empty());
            assert(seq![' '] + Seq::<char>::empty() =~= seq![' ']);
        }
        lemma_atoms_text_concat(head, sp);
        lemma_atoms_text_concat(head + sp, rest);
        assert(w + seq![' '] + (Seq::<char>::empty() + s.skip(k + 1)) =~= w + s.skip(k));
        let all = head + sp + rest;
        assert forall|i: int| 0 <= i < all.len() implies (#[trigger] all[i] matches AtomView::Word(x)
            ==> x.len() > 0 && forall|j: int| 0 <= j < x.len() ==> !is_break_space(
            #[trigger] x[j],
        )) by {
            if i < head.len() {
                assert(all[i] == head[i]);
            } else if i == head.len() {
                assert(all[i] == AtomView::Space);
            } else {
                assert(all[i] == rest[i - head.len() - 1]);
            }
        }
    } else {
        let w2 = w.push(s[k]);
        assert forall|j: int| 0 <= j < w2.len() implies !is_break_space(#[trigger] w2[j]) by {
            if j < w.len() {
                assert(w2[j] == w[j]);
            }
        }
        lemma_atoms_from(s, k + 1, w2);
        assert(w2 + s.skip(k + 1) =~= w + s.skip(k));
    }
}

/// Splitting glyph text into atoms loses nothing and breaks no word: read
/// back in order, the atoms spell the text (each space atom one space), and
/// every word atom is a non-empty run without spaces. (A no-break space also
/// makes a space atom; texts holding one are left out here.)
pub proof fn lemma_atoms_spell_text(s: Seq<char>)
    requires
        forall|i: int| 0 <= i < s.len() ==> #[trigger] s[i] != '\u{00A0}',
    ensures
        atoms_text(atoms_from(s, 0, Seq::empty())) == s,
        words_unbroken(atoms_from(s, 0, Seq::empty())),
{
    lemma_atoms_from(s, 0, Seq::empty());
    assert(Seq::<char>::empty() + s.skip(0) =~= s);
}

/// Split a glyph run into the word and space atoms the MText layout wraps on.
pub fn glyph_atoms(text: &str) -> (atoms: Vec<AtomKind>)
    ensures
        atoms_view(atoms@) == atoms_from(text@, 0, Seq::empty()),
{
    let v = chars_of(text);
    let mut atoms: Vec<AtomKind> = Vec::new();
    let mut word: Vec<char> = Vec::new();
    let mut k: usize = 0;
    proof {
        assert(atoms_view(atoms@) =~= Seq::<AtomView>::empty());
    }
    while k < v.len()
        invariant
            v@ == text@,
            0 <= k <= v@.len(),
            atoms_view(atoms@) + atoms_from(v@, k as int, word@) == atoms_from(
                v@,
                0,
                Seq::empty(),
            ),
        decreases v@.len() - k,
    {
        let ghost prev = atoms_view(atoms@);
        let ghost w = word@;
        let c = v[k];
        if c == ' ' || c == '\u{00A0}' {
            if word.len() > 0 {
                let a = AtomKind::Word(string_from_chars(word.as_slice()));
                let ghost p0 = atoms@;
                atoms.push(a);
                proof {
                    p0.lemma_push_map_commute(|x: AtomKind| x@, a);
                }
            }
            let ghost p1 = atoms@;
            atoms.push(AtomKind::Space);
            proof {
                p1.lemma_push_map_commute(|x: AtomKind| x@, AtomKind::Space);
                assert(prev + atoms_from(v@, k as int, w) =~= atoms_view(atoms@) + atoms_from(
                    v@,
                    k + 1,
                    Seq::empty(),
                ));
            }
            word = Vec::new();
            proof {
                assert(word@ =~= Seq::<char>::empty());
            }
        } else {
            word.push(c);
        }
        k = k + 1;
    }
    if word.len() > 0 {
        let a = AtomKind::Word(string_from_chars(word.as_slice()));
        let ghost p0 = atoms@;
        atoms.push(a);
        proof {
            p0.lemma_push_map_commute(|x: AtomKind| x@, a);
        }
    }
    proof {
        assert(atoms_view(atoms@) =~= atoms_from(v@, 0, Seq::empty()));
    }
    atoms
}

/// A run shows nothing: glyph text that is all white space. A tab is never
/// blank.
pub open spec fn run_blank(r: MTextRunKind) -> bool {
    match r {
        MTextRunKind::Glyphs(t) => trim(t@).len() == 0,
        MTextRunKind::Tab => false,
    }
}

/// A laid-out line shows nothing: every one of its runs is blank.
pub fn line_is_blank(runs: &Vec<MTextRunKind>) -> (b: bool)
    ensures
        b == forall|i: int| 0 <= i < runs@.len() ==> run_blank(#[trigger] runs@[i]),
{
    let mut i: usize = 0;
    while i < runs.len()
        invariant
            i <= runs@.len(),
            forall|j: int| 0 <= j < i ==> run_blank(#[trigger] runs@[j]),
        decreases runs@.len() - i,
    {
        match &runs[i] {
            MTextRunKind::Glyphs(t) => {
                let v = chars_of(t.as_str());
                let (a, b) = trim_bounds(&v, 0, v.len());
                proof {
                    assert(v@.subrange(0, v@.len() as int) =~= v@);
                }
                if a < b {
                    assert(!run_blank(runs@[i as int]));
                    return false;
                }
            },
            MTextRunKind::Tab => {
                assert(!run_blank(runs@[i as int]));
                return false;
            },
        }
        i = i + 1;
    }
    true
}

/// The lines kept when blank lines are trimmed from both ends: from the
/// first line that is not blank to the last one, or none when all are blank.
pub fn blank_trim_bounds(blank: &Vec<bool>) -> (r: (usize, usize))
    ensures
        r.0 <= r.1 <= blank@.len(),
        (forall|i: int| 0 <= i < blank@.len() ==> #[trigger] blank@[i]) ==> r == (0usize, 0usize),
        (exists|i: int| 0 <= i < blank@.len() && !#[trigger] blank@[i]) ==> {
            &&& r.0 < r.1
            &&& !blank@[r.0 as int]
            &&& !blank@[r.1 - 1]
            &&& forall|i: int| 0 <= i < r.0 ==> #[trigger] blank@[i]
            &&& forall|i: int| r.1 <= i < blank@.len() ==> #[trigger] blank@[i]
        },
{
    let n = blank.len();
    let mut start: usize = 0;
    while start < n && blank[start]
        invariant
            start <= n == blank@.len(),
            forall|i: int| 0 <= i < start ==> #[trigger] blank@[i],
        decreases n - start,
    {
        start = start + 1;
    }
    if start == n {
        return (0, 0);
    }
    let mut end: usize = n;
    while end > start && blank[end - 1]
        invariant
            start < end <= n == blank@.len(),
            !blank@[start as int],
            forall|i: int| end <= i < n ==> #[trigger] blank@[i],
        decreases end,
    {
        end = end - 1;
    }
    (start, end)
}

/// The text the stroke renderer draws for a stacked fraction or limit: it
/// has no fraction layout, so the stack is written inline as
/// `num^den` for a limit and `num/den` otherwise, or just `num` when the
/// denominator is empty.
pub open spec fn stack_run_text(st: crate::mtext_editor::cells::StackView) -> Seq<char> {
    if st.1.len() > 0 {
        st.0 + seq![
            if st.2 == crate::mtext_editor::cells::StackingType::Limit {
                '^'
            } else {
                '/'
            },
        ] + st.1
    } else {
        st.0
    }
}

/// The inline text of a stacked span, as the renderer draws it.
pub fn stack_text(st: &crate::mtext_editor::cells::StackingData) -> (r: String)
    ensures
        r@ == stack_run_text(st@),
{
    let sep = match st.stacking_type {
        crate::mtext_editor::cells::StackingType::Limit => '^',
        _ => '/',
    };
    let mut t = st.numerator.clone();
    if !crate::mtext_editor::cells::string_is_empty(&st.denominator) {
        crate::text_util::push_char(&mut t, sep);
        crate::text_util::push_str(&mut t, st.denominator.as_str());
    }
    t
}

} // verus!
