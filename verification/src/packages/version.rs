//! Semantic versions and engine-compatibility ranges.
//!
//! A package declares the engine versions it can run against; the loader enforces that
//! declaration rather than treating it as advisory.

use crate::packages::text::{
    debug_text, find, find_in, joined, with_debug, lemma_find_bounds, lemma_split_at, parse_u32, split, split_spans, text_of, trim, trim_span,
    digits_value, is_digit, is_space, space_prefix, space_suffix, lemma_find_first, lemma_find_none, trim_end, trim_start,
    u32_of, utf8_text,
};
use vstd::utf8::{encode_utf8, is_ascii_chars, is_ascii_chars_encode_utf8};
use vstd::prelude::*;
use vstd::string::StringSliceAdditionalSpecFns;

verus! {

/// A `major.minor.patch` version.
#[derive(Clone, Copy, PartialEq, Eq, PartialOrd, Ord, Hash, Debug, Structural)]
pub struct Version {
    /// Incompatible changes.
    pub major: u32,
    /// Compatible additions.
    pub minor: u32,
    /// Fixes.
    pub patch: u32,
}

/// The version order: by major, then minor, then patch.
pub open spec fn version_lt(a: Version, b: Version) -> bool {
    a.major < b.major || (a.major == b.major && (a.minor < b.minor || (a.minor == b.minor
        && a.patch < b.patch)))
}

/// Versions order lexicographically on (major, minor, patch), each part ascending: a larger
/// major always comes later; with equal majors a larger minor does; with equal majors and
/// minors, exactly a larger patch does. So `1.2.3` precedes `1.2.5`, and no version precedes
/// itself.
pub proof fn law_versions_order_lexicographically(a: Version, b: Version)
    ensures
        a.major < b.major ==> version_lt(a, b) && !version_lt(b, a),
        a.major == b.major && a.minor < b.minor ==> version_lt(a, b) && !version_lt(b, a),
        a.major == b.major && a.minor == b.minor ==> (version_lt(a, b) <==> a.patch < b.patch),
        !version_lt(a, a),
{
}

/// The version a text names, `major.minor[.patch]` (patch defaulting to zero), each part a
/// `u32` allowing surrounding whitespace; `None` if it names none.
pub open spec fn version_spec(b: Seq<u8>) -> Option<Version> {
    let parts = split(trim(b), 0x2eu8);
    if parts.len() < 2 || parts.len() > 3 {
        None
    } else {
        match (
            u32_of(parts[0]),
            u32_of(parts[1]),
            if parts.len() == 3 {
                u32_of(parts[2])
            } else {
                Some(0u32)
            },
        ) {
            (Some(major), Some(minor), Some(patch)) => Some(Version { major, minor, patch }),
            _ => None,
        }
    }
}

/// Why a version text was refused: the text itself.
#[derive(Clone, Debug)]
pub struct VersionParseError {
    /// The refused text.
    pub text: String,
}

impl VersionParseError {
    /// Refuse `text`.
    pub fn new(text: &str) -> (e: VersionParseError)
        ensures
            e.text@ == text@,
    {
        VersionParseError { text: text.to_owned() }
    }

    /// The refusal rendered as a sentence, naming the refused text by its debug rendering.
    pub fn describe(&self) -> (r: String)
        ensures
            r@ == "invalid version: "@ + debug_text(self.text@),
    {
        with_debug("invalid version: ", self.text.as_str())
    }
}

/// The version named by the bytes `s[lo..hi]`.
pub fn version_in(s: &[u8], lo: usize, hi: usize) -> (r: Option<Version>)
    requires
        lo <= hi <= s.len(),
    ensures
        r == version_spec(s@.subrange(lo as int, hi as int)),
{
    let (a, b) = trim_span(s, lo, hi);
    let ghost t = s@.subrange(a as int, b as int);
    let d1 = match find_in(s, a, b, 0x2eu8) {
        Some(d) => d,
        None => {
            return None;
        },
    };
    proof {
        lemma_split_at(t, 0x2eu8, d1 - a);
        assert(t.take(d1 - a) =~= s@.subrange(a as int, d1 as int));
        assert(t.skip(d1 - a + 1) =~= s@.subrange(d1 + 1, b as int));
    }
    let major = parse_u32(s, a, d1);
    let ghost t2 = s@.subrange(d1 + 1, b as int);
    match find_in(s, d1 + 1, b, 0x2eu8) {
        None => {
            let minor = parse_u32(s, d1 + 1, b);
            match (major, minor) {
                (Some(major), Some(minor)) => Some(Version { major, minor, patch: 0 }),
                _ => None,
            }
        },
        Some(d2) => {
            proof {
                lemma_split_at(t2, 0x2eu8, d2 - d1 - 1);
                assert(t2.take(d2 - d1 - 1) =~= s@.subrange(d1 + 1, d2 as int));
                assert(t2.skip(d2 - d1) =~= s@.subrange(d2 + 1, b as int));
            }
            let minor = parse_u32(s, d1 + 1, d2);
            match find_in(s, d2 + 1, b, 0x2eu8) {
                Some(d3) => {
                    proof {
                        let t3 = s@.subrange(d2 + 1, b as int);
                        lemma_split_at(t3, 0x2eu8, d3 - d2 - 1);
                    }
                    None
                },
                None => {
                    let patch = parse_u32(s, d2 + 1, b);
                    match (major, minor, patch) {
                        (Some(major), Some(minor), Some(patch)) => Some(
                            Version { major, minor, patch },
                        ),
                        _ => None,
                    }
                },
            }
        },
    }
}

impl Version {
    /// A version from its three parts.
    pub fn new(major: u32, minor: u32, patch: u32) -> (v: Version)
        ensures
            v == (Version { major, minor, patch }),
    {
        Version { major, minor, patch }
    }

    /// Parse `major.minor[.patch]`, the patch defaulting to zero.
    pub fn parse(text: &str) -> (r: Result<Version, VersionParseError>)
        ensures
            match version_spec(text.spec_bytes()) {
                Some(v) => r matches Ok(w) && w == v,
                None => r matches Err(e) && e.text@ == text@,
            },
    {
        let bytes = text.as_bytes();
        match version_in(bytes, 0, bytes.len()) {
            Some(v) => {
                assert(bytes@.subrange(0, bytes@.len() as int) =~= bytes@);
                Ok(v)
            },
            None => {
                assert(bytes@.subrange(0, bytes@.len() as int) =~= bytes@);
                Err(VersionParseError::new(text))
            },
        }
    }

    /// Whether this version sorts strictly before `other`.
    pub fn precedes(&self, other: &Version) -> (r: bool)
        ensures
            r == version_lt(*self, *other),
    {
        self.major < other.major || (self.major == other.major && (self.minor < other.minor || (
        self.minor == other.minor && self.patch < other.patch)))
    }
}

/// The version order is a strict total order.
pub proof fn law_version_order(a: Version, b: Version, c: Version)
    ensures
        !version_lt(a, a),
        a == b || version_lt(a, b) || version_lt(b, a),
        !(version_lt(a, b) && version_lt(b, a)),
        version_lt(a, b) && version_lt(b, c) ==> version_lt(a, c),
{
}

/// The range of engine versions a package runs against: at least `min`, below `max`.
#[derive(Clone, Copy, PartialEq, Eq, Debug, Structural)]
pub struct EngineReq {
    /// The lowest accepted version.
    pub min: Version,
    /// The first version no longer accepted.
    pub max: Version,
}

/// How one comma-separated part of a range reads: a lower bound (`>=`) or an upper bound
/// (`<`).
#[derive(Clone, Copy, Debug)]
pub enum RangePart {
    /// `>= version`.
    Min(Version),
    /// `< version`.
    Max(Version),
}

/// The meaning of one trimmed part of a range: a bound, or the refused text (as bytes).
pub open spec fn range_part(p: Seq<u8>) -> Result<RangePart, Option<Seq<u8>>> {
    if p.len() >= 2 && p[0] == 0x3eu8 && p[1] == 0x3du8 {
        match version_spec(p.skip(2)) {
            Some(v) => Ok(RangePart::Min(v)),
            None => Err(Some(p.skip(2))),
        }
    } else if p.len() >= 1 && p[0] == 0x3cu8 {
        match version_spec(p.skip(1)) {
            Some(v) => Ok(RangePart::Max(v)),
            None => Err(Some(p.skip(1))),
        }
    } else {
        Err(None)
    }
}

/// Reading the parts of a range in order: the bounds so far (a later bound replacing an
/// earlier one), or the first refusal (`Some(text)` for a bad version, `None` for a part that
/// is no bound, which refuses the whole range text).
pub open spec fn range_scan(parts: Seq<Seq<u8>>) -> Result<(Option<Version>, Option<Version>), Option<Seq<u8>>>
    decreases parts.len(),
{
    if parts.len() == 0 {
        Ok((None, None))
    } else {
        match range_scan(parts.drop_last()) {
            Err(e) => Err(e),
            Ok((lo, hi)) => match range_part(trim(parts.last())) {
                Err(e) => Err(e),
                Ok(RangePart::Min(v)) => Ok((Some(v), hi)),
                Ok(RangePart::Max(v)) => Ok((lo, Some(v))),
            },
        }
    }
}

/// What a range text means: both bounds, or the text refused (`Some` for a bad version's own
/// text, `None` for the whole range text).
pub open spec fn engine_spec(b: Seq<u8>) -> Result<EngineReq, Option<Seq<u8>>> {
    match range_scan(split(b, 0x2cu8)) {
        Err(e) => Err(e),
        Ok((Some(min), Some(max))) => Ok(EngineReq { min, max }),
        Ok(_) => Err(None),
    }
}

/// Once the range scan has failed on a prefix, it stays failed.
proof fn lemma_range_scan_stays_failed(parts: Seq<Seq<u8>>, n: int)
    requires
        0 <= n <= parts.len(),
        range_scan(parts.take(n)) is Err,
    ensures
        range_scan(parts) == range_scan(parts.take(n)),
    decreases parts.len() - n,
{
    if n == parts.len() {
        assert(parts.take(n) =~= parts);
    } else {
        assert(parts.take(n + 1).drop_last() =~= parts.take(n));
        lemma_range_scan_stays_failed(parts, n + 1);
    }
}

/// How the trimmed part `s[lo..hi]` of a range reads; a refused version is given by its
/// span.
fn bound_in(s: &[u8], lo: usize, hi: usize) -> (r: Result<RangePart, Option<(usize, usize)>>)
    requires
        lo <= hi <= s.len(),
    ensures
        match range_part(trim(s@.subrange(lo as int, hi as int))) {
            Ok(p) => r == Ok::<RangePart, Option<(usize, usize)>>(p),
            Err(Some(bad)) => r matches Err(Some(span)) && span.0 <= span.1 <= s.len()
                && s@.subrange(span.0 as int, span.1 as int) == bad,
            Err(None) => r == Err::<RangePart, Option<(usize, usize)>>(None),
        },
{
    let (a, b) = trim_span(s, lo, hi);
    let ghost p = s@.subrange(a as int, b as int);
    if b - a >= 2 && s[a] == 0x3eu8 && s[a + 1] == 0x3du8 {
        assert(p.skip(2) =~= s@.subrange(a + 2, b as int));
        match version_in(s, a + 2, b) {
            Some(v) => Ok(RangePart::Min(v)),
            None => Err(Some((a + 2, b))),
        }
    } else if b - a >= 1 && s[a] == 0x3cu8 {
        assert(p.skip(1) =~= s@.subrange(a + 1, b as int));
        match version_in(s, a + 1, b) {
            Some(v) => Ok(RangePart::Max(v)),
            None => Err(Some((a + 1, b))),
        }
    } else {
        Err(None)
    }
}

/// The range named by the bytes `s[lo..hi]`; a refused version is given by its span.
pub fn engine_in(s: &[u8], lo: usize, hi: usize) -> (r: Result<EngineReq, Option<(usize, usize)>>)
    requires
        lo <= hi <= s.len(),
    ensures
        match engine_spec(s@.subrange(lo as int, hi as int)) {
            Ok(req) => r == Ok::<EngineReq, Option<(usize, usize)>>(req),
            Err(Some(bad)) => r matches Err(Some(span)) && span.0 <= span.1 <= s.len()
                && s@.subrange(span.0 as int, span.1 as int) == bad,
            Err(None) => r == Err::<EngineReq, Option<(usize, usize)>>(None),
        },
{
    let parts = split_spans(s, lo, hi, 0x2cu8);
    let ghost ps = split(s@.subrange(lo as int, hi as int), 0x2cu8);
    let mut min: Option<Version> = None;
    let mut max: Option<Version> = None;
    let mut i: usize = 0;
    while i < parts.len()
        invariant
            i <= parts.len(),
            parts@.len() == ps.len(),
            ps == split(s@.subrange(lo as int, hi as int), 0x2cu8),
            forall|j: int|
                0 <= j < parts@.len() ==> (#[trigger] parts@[j]).0 <= parts@[j].1 <= s.len()
                    && s@.subrange(parts@[j].0 as int, parts@[j].1 as int) == ps[j],
            range_scan(ps.take(i as int)) == Ok::<
                (Option<Version>, Option<Version>),
                Option<Seq<u8>>,
            >((min, max)),
        decreases parts.len() - i,
    {
        let (a, b) = parts[i];
        assert(ps.take(i + 1).drop_last() =~= ps.take(i as int));
        assert(ps.take(i + 1).last() == ps[i as int]);
        match bound_in(s, a, b) {
            Ok(RangePart::Min(v)) => {
                min = Some(v);
            },
            Ok(RangePart::Max(v)) => {
                max = Some(v);
            },
            Err(bad) => {
                proof {
                    lemma_range_scan_stays_failed(ps, i + 1);
                }
                return Err(bad);
            },
        }
        i = i + 1;
    }
    assert(ps.take(i as int) =~= ps);
    match (min, max) {
        (Some(min), Some(max)) => Ok(EngineReq { min, max }),
        _ => Err(None),
    }
}

impl EngineReq {
    /// A range from its two bounds.
    pub fn new(min: Version, max: Version) -> (r: EngineReq)
        ensures
            r == (EngineReq { min, max }),
    {
        EngineReq { min, max }
    }

    /// Parse `>=min, <max` (parts in any order, a later bound replacing an earlier one).
    pub fn parse(text: &str) -> (r: Result<EngineReq, VersionParseError>)
        ensures
            match engine_spec(text.spec_bytes()) {
                Ok(req) => r matches Ok(q) && q == req,
                Err(Some(bad)) => r matches Err(e) && e.text@ == utf8_text(bad),
                Err(None) => r matches Err(e) && e.text@ == text@,
            },
    {
        let s = text.as_bytes();
        assert(s@.subrange(0, s@.len() as int) =~= s@);
        match engine_in(s, 0, s.len()) {
            Ok(req) => Ok(req),
            Err(Some((a, b))) => {
                let bad = crate::packages::text::slice_of(s, a, b);
                Err(VersionParseError { text: text_of(bad.as_slice()) })
            },
            Err(None) => Err(VersionParseError::new(text)),
        }
    }

    /// Whether `version` is in the range: at least `min` and below `max`.
    pub fn accepts(&self, version: Version) -> (r: bool)
        ensures
            r == engine_accepts(*self, version),
    {
        !version.precedes(&self.min) && version.precedes(&self.max)
    }
}

/// Whether a range admits `version`: it does not precede `min` and precedes `max`.
pub open spec fn engine_accepts(req: EngineReq, version: Version) -> bool {
    !version_lt(version, req.min) && version_lt(version, req.max)
}

/// A range is half-open: its lower bound is admitted (when the range is not empty), its
/// upper bound is not, nothing below the lower bound or at or above the upper bound is, and
/// everything strictly between them is.
pub proof fn law_range_is_half_open(req: EngineReq, v: Version)
    ensures
        version_lt(req.min, req.max) ==> engine_accepts(req, req.min),
        !engine_accepts(req, req.max),
        version_lt(v, req.min) ==> !engine_accepts(req, v),
        !version_lt(v, req.max) ==> !engine_accepts(req, v),
        version_lt(req.min, v) && version_lt(v, req.max) ==> engine_accepts(req, v),
{
}

/// A bound reads by its sign: `>=` before a version's text makes it the lower bound, `<`
/// makes it the upper bound.
pub proof fn law_range_bound_reads_by_its_sign(w: Seq<u8>, v: Version)
    requires
        version_spec(w) == Some(v),
    ensures
        range_part(seq![0x3eu8, 0x3du8] + w) == Ok::<RangePart, Option<Seq<u8>>>(RangePart::Min(v)),
        range_part(seq![0x3cu8] + w) == Ok::<RangePart, Option<Seq<u8>>>(RangePart::Max(v)),
{
    assert((seq![0x3eu8, 0x3du8] + w).skip(2) =~= w);
    assert((seq![0x3cu8] + w).skip(1) =~= w);
}

/// The decimal digits of a number, most significant first, with no leading zeros ("0" for
/// zero).
pub open spec fn decimal(n: nat) -> Seq<char>
    decreases n,
{
    if n < 10 {
        seq![((n + 48) as u8) as char]
    } else {
        decimal(n / 10).push((((n % 10) + 48) as u8) as char)
    }
}

/// The one-character text of a decimal digit.
fn digit_text(d: u64) -> (r: &'static str)
    requires
        d < 10,
    ensures
        r@ == seq![((d + 48) as u8) as char],
{
    if d == 0 {
        proof {
            reveal_strlit("0");
        }
        return "0";
    }
    if d == 1 {
        proof {
            reveal_strlit("1");
        }
        return "1";
    }
    if d == 2 {
        proof {
            reveal_strlit("2");
        }
        return "2";
    }
    if d == 3 {
        proof {
            reveal_strlit("3");
        }
        return "3";
    }
    if d == 4 {
        proof {
            reveal_strlit("4");
        }
        return "4";
    }
    if d == 5 {
        proof {
            reveal_strlit("5");
        }
        return "5";
    }
    if d == 6 {
        proof {
            reveal_strlit("6");
        }
        return "6";
    }
    if d == 7 {
        proof {
            reveal_strlit("7");
        }
        return "7";
    }
    if d == 8 {
        proof {
            reveal_strlit("8");
        }
        return "8";
    }
    proof {
        reveal_strlit("9");
    }
    "9"
}

/// The decimal text of a number, most significant digit first.
pub(crate) fn decimal_text(n: u64) -> (r: String)
    ensures
        r@ == decimal(n as nat),
    decreases n,
{
    if n < 10 {
        digit_text(n).to_owned()
    } else {
        let mut r = decimal_text(n / 10);
        r.append(digit_text(n % 10));
        r
    }
}

/// The text a version renders as: `major.minor.patch`.
pub open spec fn version_text(v: Version) -> Seq<char> {
    decimal(v.major as nat) + seq!['.'] + decimal(v.minor as nat) + seq!['.'] + decimal(
        v.patch as nat,
    )
}

impl Version {
    /// The version rendered as `major.minor.patch`.
    pub fn render(&self) -> (r: String)
        ensures
            r@ == version_text(*self),
    {
        let major = decimal_text(self.major as u64);
        let minor = decimal_text(self.minor as u64);
        let patch = decimal_text(self.patch as u64);
        let head = joined(major.as_str(), ".", minor.as_str());
        proof {
            reveal_strlit(".");
        }
        let r = joined(head.as_str(), ".", patch.as_str());
        assert(r@ =~= version_text(*self));
        r
    }
}

/// The bytes of a number's decimal digits.
pub open spec fn decimal_bytes(n: nat) -> Seq<u8> {
    Seq::new(decimal(n).len(), |i: int| decimal(n)[i] as u8)
}

/// A number's decimal digits are ASCII digits, at least one of them.
proof fn lemma_decimal_digits(n: nat)
    ensures
        decimal(n).len() >= 1,
        forall|i: int| 0 <= i < decimal(n).len() ==> 48 <= #[trigger] (decimal(n)[i] as u32) <= 57,
    decreases n,
{
    if n < 10 {
        assert(decimal(n)[0] as u32 == n + 48);
    } else {
        lemma_decimal_digits(n / 10);
        let d = decimal(n / 10);
        assert forall|i: int| 0 <= i < decimal(n).len() implies 48 <= #[trigger] (decimal(n)[i] as u32)
            <= 57 by {
            if i < d.len() {
                assert(decimal(n)[i] == d[i]);
            } else {
                assert(decimal(n)[i] as u32 == (n % 10) + 48);
            }
        }
    }
}

/// A number's decimal digits read back as the number.
proof fn lemma_decimal_reads_back(n: nat)
    ensures
        digits_value(decimal_bytes(n)) == Some(n),
    decreases n,
{
    lemma_decimal_digits(n);
    let b = decimal_bytes(n);
    if n < 10 {
        assert(b.last() == (n + 48) as u8);
    } else {
        lemma_decimal_reads_back(n / 10);
        lemma_decimal_digits(n / 10);
        assert(b.drop_last() =~= decimal_bytes(n / 10));
        assert(b.last() == ((n % 10) + 48) as u8);
        assert(decimal(n).last() as u32 == (n % 10) + 48);
        assert(is_digit(b.last()));
        assert((n / 10) * 10 + n % 10 == n);
    }
}

/// A number's decimal digits hold no whitespace at either end and no `+` sign, and read as
/// that number.
proof fn lemma_decimal_field(n: nat)
    requires
        n <= u32::MAX,
    ensures
        u32_of(decimal_bytes(n)) == Some(n as u32),
        forall|i: int| 0 <= i < decimal_bytes(n).len() ==> #[trigger] decimal_bytes(n)[i] != 0x2eu8,
        decimal_bytes(n).len() >= 1,
        !is_space(decimal_bytes(n)[0]),
        !is_space(decimal_bytes(n).last()),
        decimal_bytes(n)[0] < 0x80u8,
        decimal_bytes(n).last() < 0x80u8,
{
    lemma_decimal_digits(n);
    lemma_decimal_reads_back(n);
    let b = decimal_bytes(n);
    assert(decimal(n)[0] as u32 >= 48);
    assert(decimal(n)[b.len() - 1] as u32 >= 48);
    assert forall|i: int| 0 <= i < b.len() implies #[trigger] b[i] != 0x2eu8 by {
        assert(decimal(n)[i] as u32 >= 48);
        lemma_ascii_char(decimal(n)[i]);
    }
    lemma_ascii_char(decimal(n)[0]);
    lemma_ascii_char(decimal(n)[b.len() - 1]);
    assert(trim_start(b) == b);
    assert(trim_end(b) == b);
}

/// The bytes of a version's rendering: its three decimal fields joined by dots.
proof fn lemma_version_bytes(v: Version)
    ensures
        encode_utf8(version_text(v)) == decimal_bytes(v.major as nat) + seq![0x2eu8] + decimal_bytes(
            v.minor as nat,
        ) + seq![0x2eu8] + decimal_bytes(v.patch as nat),
{
    let t = version_text(v);
    let a = decimal(v.major as nat);
    let b = decimal(v.minor as nat);
    let c = decimal(v.patch as nat);
    lemma_decimal_digits(v.major as nat);
    lemma_decimal_digits(v.minor as nat);
    lemma_decimal_digits(v.patch as nat);
    assert forall|i: int| 0 <= i < t.len() implies '\0' <= #[trigger] t[i] <= '\u{7f}' by {
        if i < a.len() {
            assert(t[i] == a[i]);
            assert(a[i] as u32 <= 57);
        } else if i == a.len() {
            assert(t[i] == '.');
        } else if i < a.len() + 1 + b.len() {
            assert(t[i] == b[i - a.len() - 1]);
            assert(b[i - a.len() - 1] as u32 <= 57);
        } else if i == a.len() + 1 + b.len() {
            assert(t[i] == '.');
        } else {
            assert(t[i] == c[i - a.len() - 2 - b.len()]);
            assert(c[i - a.len() - 2 - b.len()] as u32 <= 57);
        }
        lemma_ascii_char(t[i]);
    }
    assert(is_ascii_chars(t));
    is_ascii_chars_encode_utf8(t);
    let e = encode_utf8(t);
    let w = decimal_bytes(v.major as nat) + seq![0x2eu8] + decimal_bytes(v.minor as nat) + seq![
        0x2eu8,
    ] + decimal_bytes(v.patch as nat);
    assert forall|i: int| 0 <= i < e.len() implies e[i] == w[i] by {
        assert(t[i] as u8 == e[i]);
        if i < a.len() {
            assert(t[i] == a[i]);
        } else if i == a.len() {
            assert(t[i] == '.');
        } else if i < a.len() + 1 + b.len() {
            assert(t[i] == b[i - a.len() - 1]);
        } else if i == a.len() + 1 + b.len() {
            assert(t[i] == '.');
        } else {
            assert(t[i] == c[i - a.len() - 2 - b.len()]);
        }
    }
    assert(e =~= w);
}

/// Rendering then parsing gives the version back: the text a version renders as names that
/// version.
#[verifier::spinoff_prover]
pub proof fn law_render_then_parse(v: Version)
    ensures
        version_spec(encode_utf8(version_text(v))) == Some(v),
{
    lemma_version_bytes(v);
    let a = decimal_bytes(v.major as nat);
    let b = decimal_bytes(v.minor as nat);
    let c = decimal_bytes(v.patch as nat);
    lemma_decimal_field(v.major as nat);
    lemma_decimal_field(v.minor as nat);
    lemma_decimal_field(v.patch as nat);
    let w = a + seq![0x2eu8] + b + seq![0x2eu8] + c;
    assert(w[0] == a[0]);
    assert(w.last() == c.last());
    assert(space_prefix(w) == 0);
    assert(space_suffix(w) == 0);
    assert(trim_start(w) == w);
    assert(trim_end(w) == w);
    assert(trim(w) == w);
    lemma_find_first(w, 0x2eu8, a.len() as int);
    lemma_split_at(w, 0x2eu8, a.len() as int);
    assert(w.take(a.len() as int) =~= a);
    let r = w.skip(a.len() as int + 1);
    assert(r =~= b + seq![0x2eu8] + c);
    lemma_find_first(r, 0x2eu8, b.len() as int);
    lemma_split_at(r, 0x2eu8, b.len() as int);
    assert(r.take(b.len() as int) =~= b);
    assert(r.skip(b.len() as int + 1) =~= c);
    lemma_find_none(c, 0x2eu8);
    assert(split(c, 0x2eu8) == seq![c]);
    assert(split(w, 0x2eu8) =~= seq![a, b, c]);
}


/// An ASCII character's byte is its code.
proof fn lemma_ascii_char(c: char)
    requires
        c as u32 <= 127,
    ensures
        (c as u8) as int == (c as u32) as int,
        '\0' <= c <= '\u{7f}',
{
}

} // verus!
