//! Character-level helpers shared by the text parsers of this crate.
//!
//! Text is handled as a sequence of Unicode scalar values (`Seq<char>`), the
//! view Verus gives to `str` and `String`.

use vstd::prelude::*;
use vstd::std_specs::iter::IteratorSpec;

verus! {

/// The characters of `s`, in order.
pub fn chars_of(s: &str) -> (v: Vec<char>)
    ensures
        v@ == s@,
{
    let mut v: Vec<char> = Vec::new();
    for c in it: s.chars()
        invariant
            v@ == it.seq().take(it.index() as int),
    {
        v.push(c);
    }
    v
}

/// `String::from_iter` over a slice of characters: the string holds exactly
/// those characters, in order.
#[verifier::external_body]
pub(crate) fn string_from_chars(v: &[char]) -> (s: String)
    ensures
        s@ == v@,
{
    String::from_iter(v.iter())
}

/// The characters of `s` from `lo` up to (not including) `hi`, as a `String`.
pub fn string_of_range(v: &Vec<char>, lo: usize, hi: usize) -> (s: String)
    requires
        lo <= hi <= v@.len(),
    ensures
        s@ == v@.subrange(lo as int, hi as int),
{
    let part = vec_range(v, lo, hi);
    string_from_chars(part.as_slice())
}

/// The characters of `v` from `lo` up to (not including) `hi`.
pub fn vec_range(v: &Vec<char>, lo: usize, hi: usize) -> (r: Vec<char>)
    requires
        lo <= hi <= v@.len(),
    ensures
        r@ == v@.subrange(lo as int, hi as int),
{
    let mut r: Vec<char> = Vec::new();
    let mut i = lo;
    while i < hi
        invariant
            lo <= i <= hi <= v@.len(),
            r@ == v@.subrange(lo as int, i as int),
        decreases hi - i,
    {
        r.push(v[i]);
        i = i + 1;
    }
    r
}

/// Unicode `White_Space` property, the set that `char::is_whitespace` and
/// `str::trim` use.
pub open spec fn is_ws(c: char) -> bool {
    let n = c as u32;
    ||| 0x09 <= n <= 0x0D
    ||| n == 0x20
    ||| n == 0x85
    ||| n == 0xA0
    ||| n == 0x1680
    ||| 0x2000 <= n <= 0x200A
    ||| n == 0x2028
    ||| n == 0x2029
    ||| n == 0x202F
    ||| n == 0x205F
    ||| n == 0x3000
}

/// Executable form of [`is_ws`].
pub fn is_whitespace(c: char) -> (b: bool)
    ensures
        b == is_ws(c),
{
    let n = c as u32;
    (0x09 <= n && n <= 0x0D) || n == 0x20 || n == 0x85 || n == 0xA0 || n == 0x1680 || (0x2000
        <= n && n <= 0x200A) || n == 0x2028 || n == 0x2029 || n == 0x202F || n == 0x205F || n
        == 0x3000
}

/// `s` without its leading white space.
pub open spec fn trim_start(s: Seq<char>) -> Seq<char>
    decreases s.len(),
{
    if s.len() > 0 && is_ws(s[0]) {
        trim_start(s.drop_first())
    } else {
        s
    }
}

/// `s` without its trailing white space.
pub open spec fn trim_end(s: Seq<char>) -> Seq<char>
    decreases s.len(),
{
    if s.len() > 0 && is_ws(s.last()) {
        trim_end(s.drop_last())
    } else {
        s
    }
}

/// `s` without leading and trailing white space (`str::trim`).
pub open spec fn trim(s: Seq<char>) -> Seq<char> {
    trim_end(trim_start(s))
}

/// Text that neither starts nor ends with white space is its own trim.
pub proof fn lemma_trim_unchanged(s: Seq<char>)
    requires
        s.len() > 0,
        !is_ws(s[0]),
        !is_ws(s.last()),
    ensures
        trim(s) == s,
{
}

/// The first index at or after `lo` whose character is not white space, or `hi`.
pub fn skip_ws_forward(v: &Vec<char>, lo: usize, hi: usize) -> (a: usize)
    requires
        lo <= hi <= v@.len(),
    ensures
        lo <= a <= hi,
        v@.subrange(a as int, hi as int) == trim_start(v@.subrange(lo as int, hi as int)),
{
    let mut a = lo;
    while a < hi && is_whitespace(v[a])
        invariant
            lo <= a <= hi <= v@.len(),
            trim_start(v@.subrange(lo as int, hi as int)) == trim_start(
                v@.subrange(a as int, hi as int),
            ),
        decreases hi - a,
    {
        assert(v@.subrange(a as int, hi as int).drop_first() =~= v@.subrange(
            a + 1,
            hi as int,
        ));
        a = a + 1;
    }
    a
}

/// The last index `b` (at most `hi`, at least `lo`) such that `v[lo..b]`
/// carries no trailing white space.
pub fn skip_ws_backward(v: &Vec<char>, lo: usize, hi: usize) -> (b: usize)
    requires
        lo <= hi <= v@.len(),
    ensures
        lo <= b <= hi,
        v@.subrange(lo as int, b as int) == trim_end(v@.subrange(lo as int, hi as int)),
{
    let mut b = hi;
    while b > lo && is_whitespace(v[b - 1])
        invariant
            lo <= b <= hi <= v@.len(),
            trim_end(v@.subrange(lo as int, hi as int)) == trim_end(
                v@.subrange(lo as int, b as int),
            ),
        decreases b - lo,
    {
        assert(v@.subrange(lo as int, b as int).drop_last() =~= v@.subrange(
            lo as int,
            b - 1,
        ));
        b = b - 1;
    }
    b
}

/// Bounds of `v[lo..hi]` with white space trimmed from both ends.
pub fn trim_bounds(v: &Vec<char>, lo: usize, hi: usize) -> (r: (usize, usize))
    requires
        lo <= hi <= v@.len(),
    ensures
        lo <= r.0 <= r.1 <= hi,
        v@.subrange(r.0 as int, r.1 as int) == trim(v@.subrange(lo as int, hi as int)),
{
    let a = skip_ws_forward(v, lo, hi);
    let b = skip_ws_backward(v, a, hi);
    (a, b)
}

/// True when `v[lo..hi]` is exactly the characters of `lit`.
pub fn range_eq(v: &Vec<char>, lo: usize, hi: usize, lit: &[char]) -> (b: bool)
    requires
        lo <= hi <= v@.len(),
    ensures
        b == (v@.subrange(lo as int, hi as int) == lit@),
{
    if hi - lo != lit.len() {
        proof {
            assert(v@.subrange(lo as int, hi as int).len() != lit@.len());
        }
        return false;
    }
    let mut i: usize = 0;
    while i < lit.len()
        invariant
            hi - lo == lit@.len(),
            lo <= hi <= v@.len(),
            0 <= i <= lit@.len(),
            forall|j: int| 0 <= j < i ==> v@[lo + j] == lit@[j],
        decreases lit@.len() - i,
    {
        if v[lo + i] != lit[i] {
            proof {
                assert(v@.subrange(lo as int, hi as int)[i as int] != lit@[i as int]);
            }
            return false;
        }
        i = i + 1;
    }
    proof {
        assert(v@.subrange(lo as int, hi as int) =~= lit@);
    }
    true
}

/// `a` sorts strictly before `b` as strings. Rust orders strings by their
/// UTF-8 bytes, which is the order of their code points, compared in turn; a
/// proper prefix sorts first.
pub open spec fn chars_lt(a: Seq<char>, b: Seq<char>) -> bool
    decreases a.len(),
{
    if a.len() == 0 {
        b.len() > 0
    } else if b.len() == 0 {
        false
    } else if a[0] != b[0] {
        a[0] < b[0]
    } else {
        chars_lt(a.drop_first(), b.drop_first())
    }
}

/// String order is a strict total order: irreflexive, with exactly one of
/// `a < b`, `a == b`, `b < a`.
pub proof fn lemma_chars_lt_trichotomy(a: Seq<char>, b: Seq<char>)
    ensures
        !(chars_lt(a, b) && chars_lt(b, a)),
        a == b ==> !chars_lt(a, b),
        a != b ==> chars_lt(a, b) || chars_lt(b, a),
    decreases a.len(),
{
    if a.len() > 0 && b.len() > 0 {
        if a[0] == b[0] {
            lemma_chars_lt_trichotomy(a.drop_first(), b.drop_first());
            if a != b {
                assert(a.drop_first() != b.drop_first()) by {
                    if a.drop_first() == b.drop_first() {
                        assert(a =~= seq![a[0]] + a.drop_first());
                        assert(b =~= seq![b[0]] + b.drop_first());
                    }
                }
            }
        }
    } else if a.len() == 0 && b.len() == 0 {
        assert(a =~= b);
    }
}

/// String order is transitive.
pub proof fn lemma_chars_lt_transitive(a: Seq<char>, b: Seq<char>, c: Seq<char>)
    requires
        chars_lt(a, b),
        chars_lt(b, c),
    ensures
        chars_lt(a, c),
    decreases a.len(),
{
    if a.len() > 0 && b.len() > 0 && c.len() > 0 && a[0] == b[0] && b[0] == c[0] {
        lemma_chars_lt_transitive(a.drop_first(), b.drop_first(), c.drop_first());
    }
}

/// `a < b` in string order.
pub fn str_lt(a: &str, b: &str) -> (r: bool)
    ensures
        r == chars_lt(a@, b@),
{
    let va = chars_of(a);
    let vb = chars_of(b);
    let mut k: usize = 0;
    proof {
        assert(va@.skip(0) =~= va@);
        assert(vb@.skip(0) =~= vb@);
    }
    while k < va.len() && k < vb.len() && va[k] == vb[k]
        invariant
            k <= va@.len(),
            k <= vb@.len(),
            chars_lt(va@, vb@) == chars_lt(va@.skip(k as int), vb@.skip(k as int)),
            va@ == a@,
            vb@ == b@,
        decreases va@.len() - k,
    {
        proof {
            let x = va@.skip(k as int);
            let y = vb@.skip(k as int);
            assert(x.drop_first() =~= va@.skip(k + 1));
            assert(y.drop_first() =~= vb@.skip(k + 1));
        }
        k = k + 1;
    }
    proof {
        let x = va@.skip(k as int);
        let y = vb@.skip(k as int);
        if k < va.len() && k < vb.len() {
            assert(x[0] == va@[k as int]);
            assert(y[0] == vb@[k as int]);
        }
    }
    if k == va.len() {
        k < vb.len()
    } else if k == vb.len() {
        false
    } else {
        va[k] < vb[k]
    }
}

/// `s` is exactly `lit`.
pub fn str_eq(s: &str, lit: &str) -> (b: bool)
    ensures
        b == (s@ == lit@),
{
    let v = chars_of(s);
    let w = chars_of(lit);
    proof {
        assert(v@.subrange(0, v@.len() as int) =~= v@);
    }
    range_eq(&v, 0, v.len(), w.as_slice())
}

/// `s` begins with `lit`.
pub fn str_starts_with(s: &str, lit: &str) -> (b: bool)
    ensures
        b == (s@.len() >= lit@.len() && s@.subrange(0, lit@.len() as int) == lit@),
{
    let v = chars_of(s);
    let w = chars_of(lit);
    if v.len() < w.len() {
        return false;
    }
    range_eq(&v, 0, w.len(), w.as_slice())
}

/// `String::push`: afterwards the string holds its old characters followed
/// by `c`.
#[verifier::external_body]
pub(crate) fn push_char(s: &mut String, c: char)
    ensures
        final(s)@ == old(s)@.push(c),
{
    s.push(c);
}

/// `String::push_str`: afterwards the string holds its old characters
/// followed by those of `t`.
#[verifier::external_body]
pub(crate) fn push_str(s: &mut String, t: &str)
    ensures
        final(s)@ == old(s)@ + t@,
{
    s.push_str(t);
}

} // verus!
