//! The small `plugin.toml` reader: string / integer / string-array values of
//! a fixed, host-defined set of keys.

use vstd::prelude::*;
use crate::manifest::strings_view;
use crate::text_util::{is_ws, lemma_trim_unchanged, string_of_range, trim, trim_bounds, trim_end, trim_start};

verus! {

/// `s` with one pair of matching surrounding quotes (`"…"` or `'…'`)
/// removed, after trimming white space.
pub open spec fn unquoted(s: Seq<char>) -> Seq<char> {
    let t = trim(s);
    if t.len() >= 2 && (t[0] == '"' || t[0] == '\'') && t.last() == t[0] {
        t.subrange(1, t.len() - 1)
    } else {
        t
    }
}

/// A value written between a pair of double or of single quotes comes back
/// without them: `"X"` and `'X'` both give `X`, whatever `X` holds.
pub proof fn lemma_unquoted_strips(x: Seq<char>, q: char)
    requires
        q == '"' || q == '\'',
    ensures
        unquoted(seq![q] + x + seq![q]) == x,
{
    let s = seq![q] + x + seq![q];
    assert(!is_ws(q));
    lemma_trim_unchanged(s);
    assert(s.subrange(1, s.len() - 1) =~= x);
}

/// Strip surrounding single or double quotes from `v[lo..hi]`.
pub fn unquote_range(v: &Vec<char>, lo: usize, hi: usize) -> (r: String)
    requires
        lo <= hi <= v@.len(),
    ensures
        r@ == unquoted(v@.subrange(lo as int, hi as int)),
{
    let (a, b) = trim_bounds(v, lo, hi);
    if b - a >= 2 && (v[a] == '"' || v[a] == '\'') && v[b - 1] == v[a] {
        proof {
            let t = v@.subrange(a as int, b as int);
            assert(t.subrange(1, t.len() - 1) =~= v@.subrange(a + 1, b - 1));
        }
        string_of_range(v, a + 1, b - 1)
    } else {
        string_of_range(v, a, b)
    }
}

/// Strip surrounding single or double quotes from a TOML scalar.
pub fn unquote(s: &str) -> (r: String)
    ensures
        r@ == unquoted(s@),
{
    let v = crate::text_util::chars_of(s);
    proof {
        assert(v@.subrange(0, v@.len() as int) =~= v@);
    }
    unquote_range(&v, 0, v.len())
}

/// The first index at or after `k` holding `c`, or the length of `s`.
pub open spec fn find_from(s: Seq<char>, c: char, k: int) -> int
    decreases s.len() - k,
{
    if k < 0 || k >= s.len() {
        s.len() as int
    } else if s[k] == c {
        k
    } else {
        find_from(s, c, k + 1)
    }
}

/// A search from `k` stops at the first `c` it meets.
pub proof fn lemma_find_first(s: Seq<char>, c: char, k: int, e: int)
    requires
        0 <= k <= e < s.len(),
        s[e] == c,
        forall|i: int| k <= i < e ==> s[i] != c,
    ensures
        find_from(s, c, k) == e,
    decreases e - k,
{
    if k < e {
        lemma_find_first(s, c, k + 1, e);
    }
}

/// Index of the first `c` in `v[lo..hi]`, or `hi`.
pub fn find_in(v: &Vec<char>, c: char, lo: usize, hi: usize) -> (r: usize)
    requires
        lo <= hi <= v@.len(),
    ensures
        lo <= r <= hi,
        r == lo + find_from(v@.subrange(lo as int, hi as int), c, 0),
{
    let ghost t = v@.subrange(lo as int, hi as int);
    let mut k = lo;
    while k < hi && v[k] != c
        invariant
            lo <= k <= hi <= v@.len(),
            t == v@.subrange(lo as int, hi as int),
            find_from(t, c, 0) == find_from(t, c, k - lo),
        decreases hi - k,
    {
        assert(t[k - lo] == v@[k as int]);
        k = k + 1;
    }
    proof {
        if k < hi {
            assert(t[k - lo] == v@[k as int]);
        }
    }
    k
}

/// `s` without leading `[` characters and trailing `]` characters.
pub open spec fn strip_brackets(s: Seq<char>) -> Seq<char> {
    strip_close(strip_open(s))
}

pub open spec fn strip_open(s: Seq<char>) -> Seq<char>
    decreases s.len(),
{
    if s.len() > 0 && s[0] == '[' {
        strip_open(s.drop_first())
    } else {
        s
    }
}

pub open spec fn strip_close(s: Seq<char>) -> Seq<char>
    decreases s.len(),
{
    if s.len() > 0 && s.last() == ']' {
        strip_close(s.drop_last())
    } else {
        s
    }
}

/// The non-empty unquoted comma-separated items of `t` from index `k` on.
pub open spec fn items_from(t: Seq<char>, k: int) -> Seq<Seq<char>>
    decreases t.len() - k,
{
    if k < 0 || k > t.len() {
        Seq::empty()
    } else {
        proof {
            lemma_find_from(t, ',', k);
        }
        let e = find_from(t, ',', k);
        let u = unquoted(t.subrange(k, e));
        (if u.len() > 0 {
            seq![u]
        } else {
            Seq::empty()
        }) + (if e < t.len() {
            items_from(t, e + 1)
        } else {
            Seq::empty()
        })
    }
}

/// Parse `["a", "b"]` into `a`, `b`: brackets and quotes are stripped,
/// spacing is tolerated and empty entries are dropped.
pub open spec fn string_array(s: Seq<char>) -> Seq<Seq<char>> {
    items_from(strip_brackets(s), 0)
}

/// A search from `k` that meets no `c` runs to the end.
proof fn lemma_find_none(s: Seq<char>, c: char, k: int)
    requires
        0 <= k <= s.len(),
        forall|i: int| k <= i < s.len() ==> s[i] != c,
    ensures
        find_from(s, c, k) == s.len(),
    decreases s.len() - k,
{
    if k < s.len() {
        lemma_find_none(s, c, k + 1);
    }
}

/// An array of two quoted strings, `["x", "y"]` (or with single quotes),
/// gives the two strings without their quotes, in order, when neither holds
/// a comma.
pub proof fn lemma_string_array_pair(x: Seq<char>, y: Seq<char>, q: char)
    requires
        q == '"' || q == '\'',
        x.len() > 0,
        y.len() > 0,
        forall|i: int| 0 <= i < x.len() ==> #[trigger] x[i] != ',',
        forall|i: int| 0 <= i < y.len() ==> #[trigger] y[i] != ',',
    ensures
        string_array(seq!['['] + (seq![q] + x + seq![q]) + seq![',', ' '] + (seq![q] + y + seq![q])
            + seq![']']) == seq![x, y],
{
    let qx = seq![q] + x + seq![q];
    let qy = seq![q] + y + seq![q];
    let body = qx + seq![',', ' '] + qy;
    let s = seq!['['] + qx + seq![',', ' '] + qy + seq![']'];
    assert(s.drop_first() =~= body + seq![']']);
    assert((body + seq![']'])[0] == q);
    assert(strip_open(body + seq![']']) == body + seq![']']);
    assert(strip_open(s) == body + seq![']']);
    assert((body + seq![']']).drop_last() =~= body);
    assert(body.last() == q);
    assert(strip_close(body) == body);
    assert(strip_brackets(s) == body);
    let e = qx.len() as int;
    assert forall|i: int| 0 <= i < e implies body[i] != ',' by {
        assert(body[i] == qx[i]);
        if 0 < i < e - 1 {
            assert(qx[i] == x[i - 1]);
        }
    }
    assert(body[e] == ',');
    lemma_find_first(body, ',', 0, e);
    assert(body.subrange(0, e) =~= qx);
    lemma_unquoted_strips(x, q);
    assert forall|i: int| e + 1 <= i < body.len() implies body[i] != ',' by {
        if i >= e + 2 {
            assert(body[i] == qy[i - e - 2]);
            if e + 2 < i < body.len() - 1 {
                assert(qy[i - e - 2] == y[i - e - 3]);
            }
        }
    }
    lemma_find_none(body, ',', e + 1);
    let tail = body.subrange(e + 1, body.len() as int);
    assert(tail =~= seq![' '] + qy);
    assert(tail.drop_first() =~= qy);
    assert(!is_ws(q));
    assert(trim_start(tail) == trim_start(qy));
    lemma_trim_unchanged(qy);
    assert(trim(tail) == trim(qy));
    lemma_unquoted_strips(y, q);
    assert(unquoted(tail) == y);
    assert(items_from(body, body.len() as int + 1) == Seq::<Seq<char>>::empty());
    assert(items_from(body, e + 1) =~= seq![y]);
    assert(items_from(body, 0) =~= seq![x, y]);
}

/// A search from `k` ends between `k` and the end of `s`.
pub proof fn lemma_find_from(s: Seq<char>, c: char, k: int)
    requires
        0 <= k <= s.len(),
    ensures
        k <= find_from(s, c, k) <= s.len(),
    decreases s.len() - k,
{
    if k < s.len() && s[k] != c {
        lemma_find_from(s, c, k + 1);
    }
}

/// Parse a string array held in `v[lo..hi]`.
pub fn parse_string_array_range(v: &Vec<char>, lo: usize, hi: usize) -> (r: Vec<String>)
    requires
        lo <= hi <= v@.len(),
    ensures
        strings_view(r@) == string_array(v@.subrange(lo as int, hi as int)),
{
    let ghost s = v@.subrange(lo as int, hi as int);
    let mut a = lo;
    while a < hi && v[a] == '['
        invariant
            lo <= a <= hi <= v@.len(),
            s == v@.subrange(lo as int, hi as int),
            strip_open(s) == strip_open(v@.subrange(a as int, hi as int)),
        decreases hi - a,
    {
        assert(v@.subrange(a as int, hi as int).drop_first() =~= v@.subrange(a + 1, hi as int));
        a = a + 1;
    }
    let mut b = hi;
    while b > a && v[b - 1] == ']'
        invariant
            lo <= a <= b <= hi <= v@.len(),
            strip_open(s) == v@.subrange(a as int, hi as int),
            strip_close(v@.subrange(a as int, hi as int)) == strip_close(
                v@.subrange(a as int, b as int),
            ),
        decreases b - a,
    {
        assert(v@.subrange(a as int, b as int).drop_last() =~= v@.subrange(a as int, b - 1));
        b = b - 1;
    }
    let ghost t = v@.subrange(a as int, b as int);
    assert(strip_brackets(s) == t);
    let mut out: Vec<String> = Vec::new();
    let mut k = a;
    proof {
        assert(strings_view(out@) =~= Seq::<Seq<char>>::empty());
    }
    loop
        invariant
            lo <= a <= k <= b <= hi <= v@.len(),
            t == v@.subrange(a as int, b as int),
            s == v@.subrange(lo as int, hi as int),
            strip_brackets(s) == t,
            strings_view(out@) + items_from(t, k - a) == items_from(t, 0),
        decreases b - k,
    {
        let e = find_in(v, ',', k, b);
        proof {
            lemma_find_from(t, ',', k - a);
            assert(v@.subrange(k as int, b as int) =~= t.subrange(k - a, t.len() as int));
            lemma_find_offset(t, ',', k - a);
            assert(e - a == find_from(t, ',', k - a));
            assert(t.subrange(k - a, e - a) =~= v@.subrange(k as int, e as int));
        }
        let u = unquote_range(v, k, e);
        let ghost prev = out@;
        if crate::mtext_editor::cells::string_is_empty(&u) {
        } else {
            out.push(u);
            proof {
                prev.lemma_push_map_commute(|s: String| s@, u);
            }
        }
        proof {
            let rest = if e - a < t.len() { items_from(t, e - a + 1) } else { Seq::empty() };
            assert(items_from(t, k - a) == (if u@.len() > 0 { seq![u@] } else { Seq::empty() })
                + rest);
            assert(strings_view(out@) + rest =~= strings_view(prev) + items_from(t, k - a));
        }
        if e < b {
            k = e + 1;
        } else {
            proof {
                assert(e - a == t.len());
                assert(strings_view(out@) + Seq::<Seq<char>>::empty() =~= strings_view(out@));
                assert(strings_view(out@) == items_from(t, 0));
            }
            return out;
        }
    }
}

/// A search in a suffix of `s` is a search in `s` shifted.
pub proof fn lemma_find_offset(s: Seq<char>, c: char, k: int)
    requires
        0 <= k <= s.len(),
    ensures
        k + find_from(s.subrange(k, s.len() as int), c, 0) == find_from(s, c, k),
{
    lemma_find_shift(s, c, k, 0);
}

proof fn lemma_find_shift(s: Seq<char>, c: char, k: int, j: int)
    requires
        0 <= k <= s.len(),
        0 <= j <= s.len() - k,
    ensures
        k + find_from(s.subrange(k, s.len() as int), c, j) == find_from(s, c, k + j),
    decreases s.len() - k - j,
{
    let t = s.subrange(k, s.len() as int);
    if j < t.len() {
        assert(t[j] == s[k + j]);
        if s[k + j] != c {
            lemma_find_shift(s, c, k, j + 1);
        }
    }
}

/// Parse `["a", "b"]` into `["a", "b"]`. Tolerant of spacing and missing
/// brackets; ignores empty entries.
pub fn parse_string_array(s: &str) -> (r: Vec<String>)
    ensures
        strings_view(r@) == string_array(s@),
{
    let v = crate::text_util::chars_of(s);
    proof {
        assert(v@.subrange(0, v@.len() as int) =~= v@);
    }
    parse_string_array_range(&v, 0, v.len())
}

// ── Integers ─────────────────────────────────────────────────────────────

pub open spec fn is_digit(c: char) -> bool {
    '0' <= c && c <= '9'
}

pub open spec fn all_digits(d: Seq<char>) -> bool {
    forall|i: int| 0 <= i < d.len() ==> is_digit(#[trigger] d[i])
}

/// The decimal value of a digit string.
pub open spec fn dec_value(d: Seq<char>) -> nat
    decreases d.len(),
{
    if d.len() == 0 {
        0
    } else {
        dec_value(d.drop_last()) * 10 + ((d.last() as u32) - 48) as nat
    }
}

/// `u32::from_str`: an optional `+` then one or more decimal digits, in range.
pub open spec fn parse_u32_spec(s: Seq<char>) -> Option<u32> {
    let d = if s.len() > 0 && s[0] == '+' {
        s.drop_first()
    } else {
        s
    };
    if d.len() > 0 && all_digits(d) && dec_value(d) <= u32::MAX {
        Some(dec_value(d) as u32)
    } else {
        None
    }
}

/// `i32::from_str`: an optional `+` or `-` then one or more decimal digits,
/// in range.
pub open spec fn parse_i32_spec(s: Seq<char>) -> Option<i32> {
    if s.len() > 0 && s[0] == '-' {
        let d = s.drop_first();
        if d.len() > 0 && all_digits(d) && dec_value(d) <= 0x8000_0000 {
            Some((0 - dec_value(d)) as i32)
        } else {
            None
        }
    } else {
        let d = if s.len() > 0 && s[0] == '+' {
            s.drop_first()
        } else {
            s
        };
        if d.len() > 0 && all_digits(d) && dec_value(d) <= i32::MAX {
            Some(dec_value(d) as i32)
        } else {
            None
        }
    }
}

proof fn lemma_dec_value_grows(d: Seq<char>, k: int)
    requires
        0 <= k <= d.len(),
        all_digits(d),
    ensures
        dec_value(d.take(k)) <= dec_value(d),
    decreases d.len() - k,
{
    if k < d.len() {
        lemma_dec_value_grows(d, k + 1);
        let p = d.take(k + 1);
        assert(p.drop_last() =~= d.take(k));
        assert(p.last() == d[k]);
        assert(is_digit(d[k]));
        assert(dec_value(p) == dec_value(d.take(k)) * 10 + ((d[k] as u32) - 48) as nat);
    } else {
        assert(d.take(k) =~= d);
    }
}

/// The value of the digits `v[lo..hi]` when they are all digits and the value
/// is at most `limit`; `None` otherwise.
fn digits_value(v: &Vec<char>, lo: usize, hi: usize, limit: u64) -> (r: Option<u64>)
    requires
        lo <= hi <= v@.len(),
        limit <= u32::MAX as u64 + 1,
    ensures
        ({
            let d = v@.subrange(lo as int, hi as int);
            match r {
                Some(x) => all_digits(d) && x == dec_value(d) && x <= limit,
                None => !all_digits(d) || dec_value(d) > limit,
            }
        }),
{
    let ghost d = v@.subrange(lo as int, hi as int);
    let mut x: u64 = 0;
    let mut k = lo;
    proof {
        assert(d.take(0) =~= Seq::<char>::empty());
    }
    while k < hi
        invariant
            lo <= k <= hi <= v@.len(),
            d == v@.subrange(lo as int, hi as int),
            limit <= u32::MAX as u64 + 1,
            x <= limit,
            all_digits(d.take(k - lo)),
            x == dec_value(d.take(k - lo)),
        decreases hi - k,
    {
        let c = v[k];
        assert(c == d[k - lo]);
        if !('0' <= c && c <= '9') {
            return None;
        }
        let nx = x * 10 + (c as u64 - 48);
        proof {
            assert(d.take(k - lo + 1).drop_last() =~= d.take(k - lo));
            assert(d.take(k - lo + 1).last() == c);
            assert forall|i: int| 0 <= i < d.take(k - lo + 1).len() implies is_digit(
                #[trigger] d.take(k - lo + 1)[i],
            ) by {
                if i < k - lo {
                    assert(d.take(k - lo + 1)[i] == d.take(k - lo)[i]);
                }
            }
        }
        if nx > limit {
            proof {
                if all_digits(d) {
                    lemma_dec_value_grows(d, k - lo + 1);
                }
            }
            return None;
        }
        x = nx;
        k = k + 1;
    }
    proof {
        assert(d.take(hi - lo) =~= d);
    }
    Some(x)
}

/// `v[lo..hi].parse::<u32>()`.
pub fn parse_u32_range(v: &Vec<char>, lo: usize, hi: usize) -> (r: Option<u32>)
    requires
        lo <= hi <= v@.len(),
    ensures
        r == parse_u32_spec(v@.subrange(lo as int, hi as int)),
{
    let ghost s = v@.subrange(lo as int, hi as int);
    let start = if lo < hi && v[lo] == '+' {
        lo + 1
    } else {
        lo
    };
    proof {
        if lo < hi && v@[lo as int] == '+' {
            assert(s.drop_first() =~= v@.subrange(start as int, hi as int));
        }
    }
    if start == hi {
        return None;
    }
    match digits_value(v, start, hi, u32::MAX as u64) {
        Some(x) => Some(x as u32),
        None => None,
    }
}

/// `v[lo..hi].parse::<i32>()`.
pub fn parse_i32_range(v: &Vec<char>, lo: usize, hi: usize) -> (r: Option<i32>)
    requires
        lo <= hi <= v@.len(),
    ensures
        r == parse_i32_spec(v@.subrange(lo as int, hi as int)),
{
    let ghost s = v@.subrange(lo as int, hi as int);
    if lo < hi && v[lo] == '-' {
        proof {
            assert(s.drop_first() =~= v@.subrange(lo + 1, hi as int));
        }
        if lo + 1 == hi {
            return None;
        }
        match digits_value(v, lo + 1, hi, 0x8000_0000) {
            Some(x) => Some((0 - (x as i64)) as i32),
            None => None,
        }
    } else {
        let start = if lo < hi && v[lo] == '+' {
            lo + 1
        } else {
            lo
        };
        proof {
            if lo < hi && v@[lo as int] == '+' {
                assert(s.drop_first() =~= v@.subrange(start as int, hi as int));
            }
        }
        if start == hi {
            return None;
        }
        match digits_value(v, start, hi, 0x7fff_ffff) {
            Some(x) => Some(x as i32),
            None => None,
        }
    }
}

/// `usize::from_str`: an optional `+` then one or more decimal digits, in
/// range.
pub open spec fn parse_usize_spec(s: Seq<char>) -> Option<usize> {
    let d = if s.len() > 0 && s[0] == '+' {
        s.drop_first()
    } else {
        s
    };
    if d.len() > 0 && all_digits(d) && dec_value(d) <= usize::MAX {
        Some(dec_value(d) as usize)
    } else {
        None
    }
}

/// `v[lo..hi].parse::<usize>()`.
pub fn parse_usize_range(v: &Vec<char>, lo: usize, hi: usize) -> (r: Option<usize>)
    requires
        lo <= hi <= v@.len(),
    ensures
        r == parse_usize_spec(v@.subrange(lo as int, hi as int)),
{
    let ghost s = v@.subrange(lo as int, hi as int);
    let start = if lo < hi && v[lo] == '+' {
        lo + 1
    } else {
        lo
    };
    let ghost d = v@.subrange(start as int, hi as int);
    proof {
        if lo < hi && v@[lo as int] == '+' {
            assert(s.drop_first() =~= d);
        }
    }
    if start == hi {
        return None;
    }
    let mut x: usize = 0;
    let mut k = start;
    proof {
        assert(d.take(0) =~= Seq::<char>::empty());
    }
    while k < hi
        invariant
            start < hi,
            start <= k <= hi <= v@.len(),
            d == v@.subrange(start as int, hi as int),
            s == v@.subrange(lo as int, hi as int),
            d == (if s.len() > 0 && s[0] == '+' {
                s.drop_first()
            } else {
                s
            }),
            all_digits(d.take(k - start)),
            x == dec_value(d.take(k - start)),
        decreases hi - k,
    {
        let c = v[k];
        assert(c == d[k - start]);
        if !('0' <= c && c <= '9') {
            return None;
        }
        proof {
            assert(d.take(k - start + 1).drop_last() =~= d.take(k - start));
            assert(d.take(k - start + 1).last() == c);
            assert forall|i: int| 0 <= i < d.take(k - start + 1).len() implies is_digit(
                #[trigger] d.take(k - start + 1)[i],
            ) by {
                if i < k - start {
                    assert(d.take(k - start + 1)[i] == d.take(k - start)[i]);
                }
            }
        }
        let digit = (c as u32 - 48) as usize;
        let next = match x.checked_mul(10) {
            Some(t) => t.checked_add(digit),
            None => None,
        };
        match next {
            Some(nx) => {
                x = nx;
            },
            None => {
                proof {
                    if all_digits(d) {
                        lemma_dec_value_grows(d, k - start + 1);
                    }
                }
                return None;
            },
        }
        k = k + 1;
    }
    proof {
        assert(d.take(hi - start) =~= d);
    }
    Some(x)
}

} // verus!
