//! Byte-level text handling for the world-file format: trimming, splitting at a delimiter,
//! and decimal numbers, each stated over byte sequences; and the few places where bytes
//! become owned text.

use vstd::prelude::*;

verus! {

/// Whether a byte is ASCII whitespace (space, tab, line feed, vertical tab, form feed,
/// carriage return).
pub open spec fn is_space(b: u8) -> bool {
    b == 0x20u8 || b == 0x09u8 || b == 0x0au8 || b == 0x0bu8 || b == 0x0cu8 || b == 0x0du8
}

/// Whether three bytes encode a whitespace character beyond Latin-1: U+1680, U+2000 to
/// U+200A, U+2028, U+2029, U+202F, U+205F or U+3000.
pub open spec fn is_wide_space(x: u8, y: u8, z: u8) -> bool {
    ||| x == 0xe1u8 && y == 0x9au8 && z == 0x80u8
    ||| x == 0xe2u8 && y == 0x80u8 && (0x80u8 <= z <= 0x8au8 || z == 0xa8u8 || z == 0xa9u8
        || z == 0xafu8)
    ||| x == 0xe2u8 && y == 0x81u8 && z == 0x9fu8
    ||| x == 0xe3u8 && y == 0x80u8 && z == 0x80u8
}

/// Whether two bytes encode U+0085 (next line) or U+00A0 (no-break space).
pub open spec fn is_latin_space(x: u8, y: u8) -> bool {
    x == 0xc2u8 && (y == 0x85u8 || y == 0xa0u8)
}

/// The length of the whitespace character `s` starts with (Unicode `White_Space`, in
/// UTF-8), or 0 if it starts with none.
pub open spec fn space_prefix(s: Seq<u8>) -> int {
    if s.len() >= 1 && is_space(s[0]) {
        1
    } else if s.len() >= 2 && is_latin_space(s[0], s[1]) {
        2
    } else if s.len() >= 3 && is_wide_space(s[0], s[1], s[2]) {
        3
    } else {
        0
    }
}

/// The length of the whitespace character `s` ends with, or 0 if it ends with none.
pub open spec fn space_suffix(s: Seq<u8>) -> int {
    let n = s.len() as int;
    if n >= 1 && is_space(s[n - 1]) {
        1
    } else if n >= 2 && is_latin_space(s[n - 2], s[n - 1]) {
        2
    } else if n >= 3 && is_wide_space(s[n - 3], s[n - 2], s[n - 1]) {
        3
    } else {
        0
    }
}

/// `s` without its leading whitespace.
pub open spec fn trim_start(s: Seq<u8>) -> Seq<u8>
    decreases s.len(),
{
    if space_prefix(s) > 0 {
        trim_start(s.skip(space_prefix(s)))
    } else {
        s
    }
}

/// `s` without its trailing whitespace.
pub open spec fn trim_end(s: Seq<u8>) -> Seq<u8>
    decreases s.len(),
{
    if space_suffix(s) > 0 {
        trim_end(s.take(s.len() - space_suffix(s)))
    } else {
        s
    }
}

/// `s` without leading or trailing whitespace.
pub open spec fn trim(s: Seq<u8>) -> Seq<u8> {
    trim_end(trim_start(s))
}

/// The pieces of `s` between occurrences of `d`, in order (an empty `s` is one empty
/// piece).
pub open spec fn split(s: Seq<u8>, d: u8) -> Seq<Seq<u8>>
    decreases s.len(),
{
    match find(s, d) {
        None => seq![s],
        Some(k) => if 0 <= k < s.len() {
            seq![s.take(k)] + split(s.skip(k + 1), d)
        } else {
            seq![s]
        },
    }
}

/// `find` gives an index inside `s` holding `d`, before which `d` does not occur.
pub proof fn lemma_find_bounds(s: Seq<u8>, d: u8)
    ensures
        find(s, d) matches Some(k) ==> 0 <= k < s.len() && s[k] == d && forall|j: int|
            0 <= j < k ==> s[j] != d,
    decreases s.len(),
{
    if s.len() > 0 && s[0] != d {
        lemma_find_bounds(s.drop_first(), d);
        if let Some(k) = find(s.drop_first(), d) {
            assert forall|j: int| 0 <= j < k + 1 implies s[j] != d by {
                if j > 0 {
                    assert(s[j] == s.drop_first()[j - 1]);
                }
            }
        }
    }
}

/// The index of the first `d` in `s`, if any.
pub open spec fn find(s: Seq<u8>, d: u8) -> Option<int>
    decreases s.len(),
{
    if s.len() == 0 {
        None
    } else if s[0] == d {
        Some(0)
    } else {
        match find(s.drop_first(), d) {
            Some(i) => Some(i + 1),
            None => None,
        }
    }
}

/// Whether a byte is an ASCII decimal digit.
pub open spec fn is_digit(b: u8) -> bool {
    0x30u8 <= b <= 0x39u8
}

/// The value of a non-empty run of decimal digits, or `None` if `s` is empty or holds a
/// non-digit.
pub open spec fn digits_value(s: Seq<u8>) -> Option<nat>
    decreases s.len(),
{
    if s.len() == 0 {
        None
    } else if !is_digit(s.last()) {
        None
    } else if s.len() == 1 {
        Some((s.last() - 0x30u8) as nat)
    } else {
        match digits_value(s.drop_last()) {
            Some(v) => Some(v * 10 + (s.last() - 0x30u8) as nat),
            None => None,
        }
    }
}

/// An unsigned decimal number as `str::parse` reads one: an optional `+`, then digits.
pub open spec fn unsigned_value(s: Seq<u8>) -> Option<nat> {
    if s.len() > 0 && s[0] == 0x2bu8 {
        digits_value(s.drop_first())
    } else {
        digits_value(s)
    }
}

/// A signed decimal number as `str::parse` reads one: an optional `+` or `-`, then digits.
pub open spec fn signed_value(s: Seq<u8>) -> Option<int> {
    if s.len() > 0 && s[0] == 0x2du8 {
        match digits_value(s.drop_first()) {
            Some(v) => Some(-v),
            None => None,
        }
    } else {
        match unsigned_value(s) {
            Some(v) => Some(v as int),
            None => None,
        }
    }
}

/// The `u64` a trimmed field holds, if it holds one in range.
pub open spec fn u64_of(s: Seq<u8>) -> Option<u64> {
    match unsigned_value(trim(s)) {
        Some(v) => if v <= u64::MAX {
            Some(v as u64)
        } else {
            None
        },
        None => None,
    }
}

/// The `u32` a trimmed field holds, if it holds one in range.
pub open spec fn u32_of(s: Seq<u8>) -> Option<u32> {
    match unsigned_value(trim(s)) {
        Some(v) => if v <= u32::MAX {
            Some(v as u32)
        } else {
            None
        },
        None => None,
    }
}

/// The `i64` a trimmed field holds, if it holds one in range.
pub open spec fn i64_of(s: Seq<u8>) -> Option<i64> {
    match signed_value(trim(s)) {
        Some(v) => if i64::MIN <= v <= i64::MAX {
            Some(v as i64)
        } else {
            None
        },
        None => None,
    }
}

/// The bytes `s[lo..hi]`, copied.
pub fn slice_of(s: &[u8], lo: usize, hi: usize) -> (r: Vec<u8>)
    requires
        lo <= hi <= s.len(),
    ensures
        r@ == s@.subrange(lo as int, hi as int),
{
    let mut r: Vec<u8> = Vec::new();
    let mut i = lo;
    while i < hi
        invariant
            lo <= i <= hi <= s.len(),
            r@ == s@.subrange(lo as int, i as int),
        decreases hi - i,
    {
        r.push(s[i]);
        assert(s@.subrange(lo as int, i + 1) =~= s@.subrange(lo as int, i as int).push(s@[i as int]));
        i = i + 1;
    }
    r
}

/// The length of the whitespace character at the start of `s[lo..hi]`, or 0.
fn space_at_start(s: &[u8], lo: usize, hi: usize) -> (r: usize)
    requires
        lo <= hi <= s.len(),
    ensures
        r == space_prefix(s@.subrange(lo as int, hi as int)),
{
    let n = hi - lo;
    if n >= 1 {
        let x = s[lo];
        if x == 0x20u8 || x == 0x09u8 || x == 0x0au8 || x == 0x0bu8 || x == 0x0cu8 || x == 0x0du8 {
            return 1;
        }
    }
    if n >= 2 {
        let x = s[lo];
        let y = s[lo + 1];
        if x == 0xc2u8 && (y == 0x85u8 || y == 0xa0u8) {
            return 2;
        }
    }
    if n >= 3 {
        let x = s[lo];
        let y = s[lo + 1];
        let z = s[lo + 2];
        if (x == 0xe1u8 && y == 0x9au8 && z == 0x80u8) || (x == 0xe2u8 && y == 0x80u8 && ((
        0x80u8 <= z && z <= 0x8au8) || z == 0xa8u8 || z == 0xa9u8 || z == 0xafu8)) || (x == 0xe2u8
            && y == 0x81u8 && z == 0x9fu8) || (x == 0xe3u8 && y == 0x80u8 && z == 0x80u8) {
            return 3;
        }
    }
    0
}

/// The length of the whitespace character at the end of `s[lo..hi]`, or 0.
fn space_at_end(s: &[u8], lo: usize, hi: usize) -> (r: usize)
    requires
        lo <= hi <= s.len(),
    ensures
        r == space_suffix(s@.subrange(lo as int, hi as int)),
{
    let n = hi - lo;
    if n >= 1 {
        let z = s[hi - 1];
        if z == 0x20u8 || z == 0x09u8 || z == 0x0au8 || z == 0x0bu8 || z == 0x0cu8 || z == 0x0du8 {
            return 1;
        }
    }
    if n >= 2 {
        let x = s[hi - 2];
        let y = s[hi - 1];
        if x == 0xc2u8 && (y == 0x85u8 || y == 0xa0u8) {
            return 2;
        }
    }
    if n >= 3 {
        let x = s[hi - 3];
        let y = s[hi - 2];
        let z = s[hi - 1];
        if (x == 0xe1u8 && y == 0x9au8 && z == 0x80u8) || (x == 0xe2u8 && y == 0x80u8 && ((
        0x80u8 <= z && z <= 0x8au8) || z == 0xa8u8 || z == 0xa9u8 || z == 0xafu8)) || (x == 0xe2u8
            && y == 0x81u8 && z == 0x9fu8) || (x == 0xe3u8 && y == 0x80u8 && z == 0x80u8) {
            return 3;
        }
    }
    0
}

/// The bytes of `s[lo..hi]` without leading or trailing whitespace, as a span.
pub fn trim_span(s: &[u8], lo: usize, hi: usize) -> (r: (usize, usize))
    requires
        lo <= hi <= s.len(),
    ensures
        lo <= r.0 <= r.1 <= hi,
        s@.subrange(r.0 as int, r.1 as int) == trim(s@.subrange(lo as int, hi as int)),
{
    let ghost w = s@.subrange(lo as int, hi as int);
    let mut a = lo;
    loop
        invariant
            lo <= a <= hi <= s.len(),
            trim_start(w) == trim_start(s@.subrange(a as int, hi as int)),
        ensures
            lo <= a <= hi,
            trim_start(w) == s@.subrange(a as int, hi as int),
        decreases hi - a,
    {
        let p = space_at_start(s, a, hi);
        if p == 0 {
            break;
        }
        proof {
            let t = s@.subrange(a as int, hi as int);
            assert(t.skip(p as int) =~= s@.subrange(a + p, hi as int));
        }
        a = a + p;
    }
    let ghost t = s@.subrange(a as int, hi as int);
    let mut b = hi;
    loop
        invariant
            a <= b <= hi <= s.len(),
            t == s@.subrange(a as int, hi as int),
            trim_end(t) == trim_end(s@.subrange(a as int, b as int)),
        ensures
            a <= b <= hi,
            trim_end(t) == s@.subrange(a as int, b as int),
        decreases b - a,
    {
        let q = space_at_end(s, a, b);
        if q == 0 {
            break;
        }
        proof {
            let u = s@.subrange(a as int, b as int);
            assert(u.take(u.len() - q) =~= s@.subrange(a as int, b - q));
        }
        b = b - q;
    }
    (a, b)
}

/// The value of the digits `s[lo..hi]`, or `None` if the span is empty, holds a non-digit,
/// or exceeds `limit`.
fn digits_in(s: &[u8], lo: usize, hi: usize, limit: u64) -> (r: Option<u64>)
    requires
        lo <= hi <= s.len(),
    ensures
        r == (match digits_value(s@.subrange(lo as int, hi as int)) {
            Some(v) => if v <= limit {
                Some(v as u64)
            } else {
                None
            },
            None => None,
        }),
{
    if lo == hi {
        return None;
    }
    let mut acc: u64 = 0;
    let mut i = lo;
    let mut over = false;
    while i < hi
        invariant
            lo <= i <= hi <= s.len(),
            lo < hi,
            i > lo ==> digits_value(s@.subrange(lo as int, i as int)) is Some || exists|k: int|
                lo <= k < i && !is_digit(#[trigger] s@[k]),
            forall|k: int| lo <= k < i ==> is_digit(#[trigger] s@[k]),
            i > lo ==> (match digits_value(s@.subrange(lo as int, i as int)) {
                Some(v) => (over <==> v > limit) && (!over ==> acc == v),
                None => false,
            }),
            i == lo ==> !over && acc == 0,
        decreases hi - i,
    {
        let b = s[i];
        if b < 0x30u8 || b > 0x39u8 {
            proof {
                lemma_digits_stop(s@.subrange(lo as int, hi as int), i - lo);
                assert(s@.subrange(lo as int, hi as int)[i - lo] == b);
            }
            return None;
        }
        let d = (b - 0x30u8) as u64;
        proof {
            let p = s@.subrange(lo as int, i + 1);
            assert(p.drop_last() =~= s@.subrange(lo as int, i as int));
            assert(p.last() == b);
        }
        if !over {
            if d > limit || acc > (limit - d) / 10 {
                over = true;
            } else {
                acc = acc * 10 + d;
            }
        }
        proof {
            let p = s@.subrange(lo as int, i + 1);
            if i > lo {
                let pv = digits_value(s@.subrange(lo as int, i as int))->Some_0;
                assert(digits_value(p) == Some(pv * 10 + d as nat));
                if pv > limit {
                    assert(pv * 10 + d > limit) by (nonlinear_arith)
                        requires
                            pv > limit,
                            d >= 0,
                    ;
                }
            } else {
                assert(p.len() == 1);
                assert(digits_value(p) == Some(d as nat));
            }
        }
        i = i + 1;
    }
    if over {
        None
    } else {
        Some(acc)
    }
}

/// A run of digits that meets a non-digit has no value.
proof fn lemma_digits_stop(s: Seq<u8>, k: int)
    requires
        0 <= k < s.len(),
        !is_digit(s[k]),
    ensures
        digits_value(s) is None,
    decreases s.len(),
{
    if k < s.len() - 1 {
        lemma_digits_stop(s.drop_last(), k);
    }
}

/// The `u64` the trimmed bytes `s[lo..hi]` hold, as `str::parse` reads it.
pub fn parse_u64(s: &[u8], lo: usize, hi: usize) -> (r: Option<u64>)
    requires
        lo <= hi <= s.len(),
    ensures
        r == u64_of(s@.subrange(lo as int, hi as int)),
{
    let (a, b) = trim_span(s, lo, hi);
    let ghost t = s@.subrange(a as int, b as int);
    if a < b && s[a] == 0x2bu8 {
        assert(t.drop_first() =~= s@.subrange(a + 1, b as int));
        digits_in(s, a + 1, b, u64::MAX)
    } else {
        digits_in(s, a, b, u64::MAX)
    }
}

/// The `u32` the trimmed bytes `s[lo..hi]` hold, as `str::parse` reads it.
pub fn parse_u32(s: &[u8], lo: usize, hi: usize) -> (r: Option<u32>)
    requires
        lo <= hi <= s.len(),
    ensures
        r == u32_of(s@.subrange(lo as int, hi as int)),
{
    let (a, b) = trim_span(s, lo, hi);
    let ghost t = s@.subrange(a as int, b as int);
    let v = if a < b && s[a] == 0x2bu8 {
        assert(t.drop_first() =~= s@.subrange(a + 1, b as int));
        digits_in(s, a + 1, b, u32::MAX as u64)
    } else {
        digits_in(s, a, b, u32::MAX as u64)
    };
    match v {
        Some(n) => Some(n as u32),
        None => None,
    }
}

/// The `i64` the trimmed bytes `s[lo..hi]` hold, as `str::parse` reads it.
pub fn parse_i64(s: &[u8], lo: usize, hi: usize) -> (r: Option<i64>)
    requires
        lo <= hi <= s.len(),
    ensures
        r == i64_of(s@.subrange(lo as int, hi as int)),
{
    let (a, b) = trim_span(s, lo, hi);
    let ghost t = s@.subrange(a as int, b as int);
    if a < b && s[a] == 0x2du8 {
        assert(t.drop_first() =~= s@.subrange(a + 1, b as int));
        match digits_in(s, a + 1, b, 0x8000_0000_0000_0000u64) {
            Some(m) => if m == 0x8000_0000_0000_0000u64 {
                Some(i64::MIN)
            } else {
                Some(-(m as i64))
            },
            None => None,
        }
    } else {
        let v = if a < b && s[a] == 0x2bu8 {
            assert(t.drop_first() =~= s@.subrange(a + 1, b as int));
            digits_in(s, a + 1, b, i64::MAX as u64)
        } else {
            digits_in(s, a, b, i64::MAX as u64)
        };
        match v {
            Some(n) => Some(n as i64),
            None => None,
        }
    }
}

/// The index of the first `d` in `s[lo..hi]` (relative to `s`), if any.
pub fn find_in(s: &[u8], lo: usize, hi: usize, d: u8) -> (r: Option<usize>)
    requires
        lo <= hi <= s.len(),
    ensures
        r matches Some(i) ==> lo <= i < hi && find(s@.subrange(lo as int, hi as int), d) == Some(
            i - lo,
        ),
        r is None <==> find(s@.subrange(lo as int, hi as int), d) is None,
{
    let mut i = lo;
    while i < hi
        invariant
            lo <= i <= hi <= s.len(),
            forall|k: int| lo <= k < i ==> s@[k] != d,
        decreases hi - i,
    {
        if s[i] == d {
            proof {
                lemma_find_first(s@.subrange(lo as int, hi as int), d, i - lo);
            }
            return Some(i);
        }
        i = i + 1;
    }
    proof {
        lemma_find_none(s@.subrange(lo as int, hi as int), d);
    }
    None
}

/// `find` gives the first occurrence.
pub proof fn lemma_find_first(s: Seq<u8>, d: u8, k: int)
    requires
        0 <= k < s.len(),
        s[k] == d,
        forall|j: int| 0 <= j < k ==> s[j] != d,
    ensures
        find(s, d) == Some(k),
    decreases k,
{
    if k > 0 {
        lemma_find_first(s.drop_first(), d, k - 1);
    }
}

/// `find` gives nothing when `d` does not occur.
pub proof fn lemma_find_none(s: Seq<u8>, d: u8)
    requires
        forall|j: int| 0 <= j < s.len() ==> s[j] != d,
    ensures
        find(s, d) is None,
    decreases s.len(),
{
    if s.len() > 0 {
        lemma_find_none(s.drop_first(), d);
    }
}

/// The text of some bytes, decoded as UTF-8 with any invalid sequence replaced.
pub uninterp spec fn utf8_text(bytes: Seq<u8>) -> Seq<char>;

/// Owned text from bytes: `String::from_utf8_lossy`. The contract names the decoded text
/// and states what the documentation promises: valid UTF-8 decodes unchanged.
#[verifier::external_body]
pub fn text_of(bytes: &[u8]) -> (r: String)
    ensures
        r@ == utf8_text(bytes@),
        vstd::utf8::valid_utf8(bytes@) ==> r@ == vstd::utf8::decode_utf8(bytes@),
{
    String::from_utf8_lossy(bytes).into_owned()
}

/// The debug rendering of some text: quoted, with quotes, backslashes and control
/// characters escaped.
pub uninterp spec fn debug_text(text: Seq<char>) -> Seq<char>;

/// A message naming some text by its debug rendering: `format!("{prefix}{text:?}")`. The
/// contract states the plain prefix and names the rendering.
#[verifier::external_body]
pub(crate) fn with_debug(prefix: &str, text: &str) -> (r: String)
    ensures
        r@ == prefix@ + debug_text(text@),
{
    format!("{prefix}{text:?}")
}

/// A message naming some bytes by the debug rendering of their decoded text.
pub fn quoted(prefix: &str, bytes: &[u8]) -> (r: String)
    ensures
        r@ == prefix@ + debug_text(utf8_text(bytes@)),
{
    let t = text_of(bytes);
    with_debug(prefix, t.as_str())
}

/// Three pieces of text joined, in order.
pub fn joined(a: &str, b: &str, c: &str) -> (r: String)
    ensures
        r@ == a@ + b@ + c@,
{
    let mut r = a.to_owned();
    r.append(b);
    r.append(c);
    r
}

/// Splitting at a found delimiter.
pub proof fn lemma_split_at(s: Seq<u8>, d: u8, k: int)
    requires
        find(s, d) == Some(k),
    ensures
        0 <= k < s.len(),
        split(s, d) == seq![s.take(k)] + split(s.skip(k + 1), d),
{
    lemma_find_bounds(s, d);
}

/// Splitting always gives at least one piece.
pub proof fn lemma_split_nonempty(s: Seq<u8>, d: u8)
    ensures
        split(s, d).len() >= 1,
{
}

/// The parts of `s[lo..hi]` split at `d`, as spans.
pub fn split_spans(s: &[u8], lo: usize, hi: usize, d: u8) -> (r: Vec<(usize, usize)>)
    requires
        lo <= hi <= s.len(),
    ensures
        r@.len() == split(s@.subrange(lo as int, hi as int), d).len(),
        forall|i: int|
            0 <= i < r@.len() ==> (#[trigger] r@[i]).0 <= r@[i].1 <= s.len() && s@.subrange(
                r@[i].0 as int,
                r@[i].1 as int,
            ) == split(s@.subrange(lo as int, hi as int), d)[i],
    decreases hi - lo,
{
    let ghost t = s@.subrange(lo as int, hi as int);
    match find_in(s, lo, hi, d) {
        None => {
            let mut r: Vec<(usize, usize)> = Vec::new();
            r.push((lo, hi));
            r
        },
        Some(k) => {
            proof {
                lemma_split_at(t, d, k - lo);
                assert(t.take(k - lo) =~= s@.subrange(lo as int, k as int));
                assert(t.skip(k - lo + 1) =~= s@.subrange(k + 1, hi as int));
            }
            let rest = split_spans(s, k + 1, hi, d);
            let mut r: Vec<(usize, usize)> = Vec::new();
            r.push((lo, k));
            let mut i: usize = 0;
            while i < rest.len()
                invariant
                    i <= rest.len(),
                    r@.len() == i + 1,
                    r@[0] == (lo, k),
                    forall|j: int| 0 < j < r@.len() ==> r@[j] == rest@[j - 1],
                decreases rest.len() - i,
            {
                r.push(rest[i]);
                i = i + 1;
            }
            proof {
                let whole = split(t, d);
                assert forall|j: int| 0 <= j < r@.len() implies (#[trigger] r@[j]).0 <= r@[j].1
                    <= s.len() && s@.subrange(r@[j].0 as int, r@[j].1 as int) == whole[j] by {
                    if j > 0 {
                        assert(r@[j] == rest@[j - 1]);
                    }
                }
            }
            r
        },
    }
}

} // verus!
