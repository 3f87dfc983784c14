//! Reading the source-modification timestamp recorded in a thumbnail's
//! `tEXt` chunk, and deciding whether the thumbnail is still fresh.
use vstd::prelude::*;
use vstd::utf8::*;

verus! {

/// Length of the PNG file signature that precedes the first chunk.
pub const SIGNATURE_LEN: usize = 8;

/// Big-endian value of four bytes starting at `i`.
pub open spec fn be32(b: Seq<u8>, i: int) -> int {
    b[i] as int * 0x1000000 + b[i + 1] as int * 0x10000 + b[i + 2] as int * 0x100 + b[i + 3] as int
}

/// The keyword under which thumbnails record the source's modification time.
pub open spec fn mtime_keyword() -> Seq<u8> {
    seq![84u8, 104, 117, 109, 98, 58, 58, 77, 84, 105, 109, 101]
}

/// The chunk tag `tEXt`.
pub open spec fn is_text_tag(b: Seq<u8>, i: int) -> bool {
    b[i] == 116u8 && b[i + 1] == 69u8 && b[i + 2] == 88u8 && b[i + 3] == 116u8
}

/// Index of the first byte `x` of `b` at or after `from`, or `b.len()`.
pub open spec fn position_from(b: Seq<u8>, from: int, x: u8) -> int
    decreases b.len() - from,
{
    if from >= b.len() {
        b.len() as int
    } else if b[from] == x {
        from
    } else {
        position_from(b, from + 1, x)
    }
}

/// Index of the first NUL byte of `b` at or after `from`, or `b.len()`.
pub open spec fn nul_from(b: Seq<u8>, from: int) -> int {
    position_from(b, from, 0)
}

/// What a `tEXt` payload says: `None` where its keyword is not the
/// modification-time keyword, `Some(None)` where it is but no value follows,
/// and `Some(Some(v))` with the text up to the next NUL otherwise.
pub open spec fn text_value(p: Seq<u8>) -> Option<Option<Seq<u8>>> {
    let k = nul_from(p, 0);
    if p.subrange(0, k) != mtime_keyword() {
        None
    } else if k == p.len() {
        Some(None)
    } else {
        Some(Some(p.subrange(k + 1, nul_from(p, k + 1))))
    }
}

/// Walks the chunks of `b`, which starts at a chunk header.
pub open spec fn scan_chunks(b: Seq<u8>) -> Option<Seq<u8>>
    decreases b.len(),
{
    if b.len() < 8 {
        None
    } else {
        let len = be32(b, 0);
        let found = if is_text_tag(b, 4) && len + 8 <= b.len() {
            text_value(b.subrange(8, len + 8))
        } else {
            None
        };
        match found {
            Some(v) => v,
            None => if b.len() > len + 12 + 12 {
                scan_chunks(b.subrange(len + 12, b.len() as int))
            } else {
                None
            },
        }
    }
}

/// The modification-time value recorded in the image prefix `b`, as bytes.
pub open spec fn mtime_bytes(b: Seq<u8>) -> Option<Seq<u8>> {
    if b.len() <= 12 {
        None
    } else {
        scan_chunks(b.subrange(8, b.len() as int))
    }
}

/// The text that `String::from_utf8_lossy` makes of `b`.
pub uninterp spec fn utf8_lossy(b: Seq<u8>) -> Seq<char>;

/// Relies on `String::from_utf8_lossy`: it decodes `b`, replacing invalid
/// sequences, and leaves valid UTF-8 as it is.
#[verifier::external_body]
fn lossy_string(b: &[u8]) -> (r: String)
    ensures
        r@ == utf8_lossy(b@),
        valid_utf8(b@) ==> r@ == decode_utf8(b@),
{
    String::from_utf8_lossy(b).into_owned()
}

/// Big-endian value of the four bytes of `b` at `i`.
fn read_be32(b: &[u8], i: usize) -> (r: usize)
    requires
        i + 4 <= b@.len(),
    ensures
        r as int == be32(b@, i as int),
{
    let v: u64 = (b[i] as u64) * 0x1000000 + (b[i + 1] as u64) * 0x10000 + (b[i + 2] as u64)
        * 0x100 + (b[i + 3] as u64);
    assert(v < 0x1_0000_0000);
    v as usize
}

/// Index of the first byte `x` in `b[from..end]`, or `end`.
fn find_byte(b: &[u8], from: usize, end: usize, x: u8) -> (r: usize)
    requires
        from <= end <= b@.len(),
    ensures
        from <= r <= end,
        r as int == from + position_from(b@.subrange(from as int, end as int), 0, x),
{
    let ghost p = b@.subrange(from as int, end as int);
    let mut i = from;
    while i < end
        invariant
            from <= i <= end <= b@.len(),
            p == b@.subrange(from as int, end as int),
            position_from(p, 0, x) == position_from(p, i - from, x),
        decreases end - i,
    {
        if b[i] == x {
            return i;
        }
        i = i + 1;
    }
    i
}

proof fn lemma_position_shift(p: Seq<u8>, j: int, i: int, x: u8)
    requires
        0 <= j <= i <= p.len(),
    ensures
        position_from(p, i, x) == j + position_from(p.subrange(j, p.len() as int), i - j, x),
    decreases p.len() - i,
{
    if i < p.len() {
        lemma_position_shift(p, j, i + 1, x);
    }
}

/// Whether the twelve bytes of `b` at `i` are the modification-time keyword.
fn is_mtime_keyword(b: &[u8], i: usize) -> (r: bool)
    requires
        i + 12 <= b@.len(),
    ensures
        r == (b@.subrange(i as int, i + 12) == mtime_keyword()),
{
    let r = b[i] == 84 && b[i + 1] == 104 && b[i + 2] == 117 && b[i + 3] == 109 && b[i + 4]
        == 98 && b[i + 5] == 58 && b[i + 6] == 58 && b[i + 7] == 77 && b[i + 8] == 84 && b[i
        + 9] == 105 && b[i + 10] == 109 && b[i + 11] == 101;
    assert(r ==> b@.subrange(i as int, i + 12) =~= mtime_keyword());
    assert(b@.subrange(i as int, i + 12) == mtime_keyword() ==> r) by {
        if b@.subrange(i as int, i + 12) == mtime_keyword() {
            let k = mtime_keyword();
            assert(b@.subrange(i as int, i + 12)[0] == k[0]);
            assert(b@.subrange(i as int, i + 12)[1] == k[1]);
            assert(b@.subrange(i as int, i + 12)[2] == k[2]);
            assert(b@.subrange(i as int, i + 12)[3] == k[3]);
            assert(b@.subrange(i as int, i + 12)[4] == k[4]);
            assert(b@.subrange(i as int, i + 12)[5] == k[5]);
            assert(b@.subrange(i as int, i + 12)[6] == k[6]);
            assert(b@.subrange(i as int, i + 12)[7] == k[7]);
            assert(b@.subrange(i as int, i + 12)[8] == k[8]);
            assert(b@.subrange(i as int, i + 12)[9] == k[9]);
            assert(b@.subrange(i as int, i + 12)[10] == k[10]);
            assert(b@.subrange(i as int, i + 12)[11] == k[11]);
        }
    }
    r
}

/// Where in `b` the recorded modification time lies, as a range of bytes.
fn find_mtime(b: &[u8]) -> (r: Option<(usize, usize)>)
    ensures
        match r {
            Some((s, e)) => s <= e <= b@.len() && mtime_bytes(b@) == Some(
                b@.subrange(s as int, e as int),
            ),
            None => mtime_bytes(b@) is None,
        },
{
    let n = b.len();
    if n <= 12 {
        return None;
    }
    let mut pos: usize = SIGNATURE_LEN;
    loop
        invariant
            n == b@.len(),
            8 <= pos <= n,
            mtime_bytes(b@) == scan_chunks(b@.subrange(pos as int, n as int)),
        decreases n - pos,
    {
        let ghost c = b@.subrange(pos as int, n as int);
        if n - pos < 8 {
            return None;
        }
        let len = read_be32(b, pos);
        assert(be32(c, 0) == be32(b@, pos as int));
        let text = b[pos + 4] == 116 && b[pos + 5] == 69 && b[pos + 6] == 88 && b[pos + 7]
            == 116;
        assert(text == is_text_tag(c, 4));
        if text && len <= n - pos - 8 {
            let start = pos + 8;
            let end = start + len;
            let ghost p = c.subrange(8, len + 8);
            assert(p =~= b@.subrange(start as int, end as int));
            let k = find_byte(b, start, end, 0);
            proof {
                lemma_position_shift(p, 0, 0, 0);
                assert(p.subrange(0, p.len() as int) =~= p);
            }
            if k - start == 12 && is_mtime_keyword(b, start) {
                assert(p.subrange(0, k - start) =~= b@.subrange(start as int, start + 12));
                if k == end {
                    return None;
                }
                let v_end = find_byte(b, k + 1, end, 0);
                proof {
                    let j = k - start + 1;
                    lemma_position_shift(p, j, j, 0);
                    assert(p.subrange(j, p.len() as int) =~= b@.subrange(k + 1, end as int));
                    assert(p.subrange(j, nul_from(p, j)) =~= b@.subrange(k + 1, v_end as int));
                }
                return Some((k + 1, v_end));
            }
            assert(p.subrange(0, k - start) != mtime_keyword()) by {
                if k - start != 12 {
                    assert(p.subrange(0, k - start).len() != mtime_keyword().len());
                } else {
                    assert(p.subrange(0, k - start) =~= b@.subrange(start as int, start + 12));
                }
            }
        }
        if n - pos >= 24 && n - pos - 24 > len {
            assert(c.subrange(len + 12, c.len() as int) =~= b@.subrange(
                pos + len + 12,
                n as int,
            ));
            pos = pos + len + 12;
        } else {
            return None;
        }
    }
}

/// The modification time recorded in the thumbnail prefix `b`, as text.
///
/// `b` is the first bytes of a PNG image. After the signature its chunks are
/// walked in order; the first `tEXt` chunk whose keyword is `Thumb::MTime`
/// gives the result, the text between the keyword's NUL and the next NUL.
/// The walk stops where fewer bytes than a chunk header remain, or where the
/// next chunk would leave no more than a chunk's overhead, or at a `tEXt`
/// chunk that runs past the end of `b`.
pub fn mtime(b: &[u8]) -> (r: Option<String>)
    ensures
        match mtime_bytes(b@) {
            Some(v) => r is Some && r->0@ == utf8_lossy(v),
            None => r is None,
        },
{
    match find_mtime(b) {
        Some((s, e)) => Some(lossy_string(&b[s..e])),
        None => None,
    }
}

/// Whether every byte of `s` is an ASCII digit.
pub open spec fn all_digits(s: Seq<u8>) -> bool {
    forall|i: int| 0 <= i < s.len() ==> 48 <= #[trigger] s[i] <= 57
}

/// The number that the ASCII digits `s` spell in base ten.
pub open spec fn digits_value(s: Seq<u8>) -> int
    decreases s.len(),
{
    if s.len() == 0 {
        0
    } else {
        digits_value(s.drop_last()) * 10 + (s.last() - 48)
    }
}

/// An unsigned decimal integer as `str::parse::<u64>` reads it: an optional
/// `+`, then one digit or more, with a value that fits in a `u64`.
pub open spec fn parse_decimal(s: Seq<u8>) -> Option<u64> {
    let d = if s.len() > 0 && s[0] == 43u8 {
        s.subrange(1, s.len() as int)
    } else {
        s
    };
    if d.len() > 0 && all_digits(d) && digits_value(d) <= u64::MAX {
        Some(digits_value(d) as u64)
    } else {
        None
    }
}

/// The whole seconds of a recorded time `<seconds>.<fraction>`: the text
/// before the first `.`.
pub open spec fn seconds_field(v: Seq<u8>) -> Seq<u8> {
    v.subrange(0, position_from(v, 0, 46))
}

/// Whether a thumbnail whose first bytes are `b` records `secs` as the
/// modification time of its source, counting whole seconds only.
pub open spec fn fresh(b: Seq<u8>, secs: u64) -> bool {
    match mtime_bytes(b) {
        Some(v) => parse_decimal(seconds_field(v)) == Some(secs),
        None => false,
    }
}

proof fn lemma_digits_nonneg(d: Seq<u8>)
    requires
        all_digits(d),
    ensures
        digits_value(d) >= 0,
    decreases d.len(),
{
    if d.len() > 0 {
        assert(all_digits(d.drop_last())) by {
            assert forall|i: int| 0 <= i < d.drop_last().len() implies 48 <= #[trigger] d.drop_last()[i] <= 57 by {
                assert(d.drop_last()[i] == d[i]);
            }
        }
        lemma_digits_nonneg(d.drop_last());
        assert(48 <= d[d.len() - 1] <= 57);
    }
}

proof fn lemma_digits_monotone(d: Seq<u8>, k: int, m: int)
    requires
        0 <= k <= m <= d.len(),
        all_digits(d),
    ensures
        digits_value(d.subrange(0, k)) <= digits_value(d.subrange(0, m)),
    decreases m - k,
{
    if k < m {
        lemma_digits_monotone(d, k, m - 1);
        let t = d.subrange(0, m - 1);
        assert(d.subrange(0, m).drop_last() =~= t);
        assert(d.subrange(0, m).last() == d[m - 1]);
        assert(48 <= d[m - 1] <= 57);
        assert(all_digits(t)) by {
            assert forall|i: int| 0 <= i < t.len() implies 48 <= #[trigger] t[i] <= 57 by {
                assert(t[i] == d[i]);
            }
        }
        lemma_digits_nonneg(t);
    }
}

/// Reads `s` as an unsigned decimal integer, as `str::parse::<u64>` does.
pub fn parse_seconds(s: &[u8]) -> (r: Option<u64>)
    ensures
        r == parse_decimal(s@),
{
    let n = s.len();
    let start: usize = if n > 0 && s[0] == 43 {
        1
    } else {
        0
    };
    let ghost d = s@.subrange(start as int, n as int);
    assert(d =~= (if s@.len() > 0 && s@[0] == 43u8 {
        s@.subrange(1, s@.len() as int)
    } else {
        s@
    }));
    assert(parse_decimal(s@) == (if d.len() > 0 && all_digits(d) && digits_value(d) <= u64::MAX {
        Some(digits_value(d) as u64)
    } else {
        None
    }));
    if start == n {
        return None;
    }
    let mut i = start;
    let mut acc: u64 = 0;
    while i < n
        invariant
            start < n == s@.len(),
            start <= i <= n,
            d == s@.subrange(start as int, n as int),
            parse_decimal(s@) == (if all_digits(d) && digits_value(d) <= u64::MAX {
                Some(digits_value(d) as u64)
            } else {
                None
            }),
            all_digits(d.subrange(0, i - start)),
            acc as int == digits_value(d.subrange(0, i - start)),
        decreases n - i,
    {
        let c = s[i];
        if c < 48 || c > 57 {
            assert(d[i - start] == c);
            assert(!all_digits(d));
            return None;
        }
        let digit = (c - 48) as u64;
        assert(d.subrange(0, i + 1 - start).drop_last() =~= d.subrange(0, i - start));
        assert(d.subrange(0, i + 1 - start).last() == c);
        assert(digits_value(d.subrange(0, i + 1 - start)) == acc * 10 + digit);
        if acc > (u64::MAX - digit) / 10 {
            assert(acc * 10 + digit > u64::MAX) by (nonlinear_arith)
                requires
                    acc > (u64::MAX - digit) / 10,
                    digit <= 9,
            ;
            proof {
                if all_digits(d) {
                    lemma_digits_monotone(d, i + 1 - start, d.len() as int);
                    assert(d.subrange(0, d.len() as int) =~= d);
                }
            }
            return None;
        }
        assert(acc * 10 + digit <= u64::MAX) by (nonlinear_arith)
            requires
                acc <= (u64::MAX - digit) / 10,
                digit <= 9,
        ;
        acc = acc * 10 + digit;
        i = i + 1;
        assert(all_digits(d.subrange(0, i - start))) by {
            assert forall|j: int| 0 <= j < i - start implies 48 <= #[trigger] d.subrange(
                0,
                i - start,
            )[j] <= 57 by {
                if j < i - 1 - start {
                    assert(d.subrange(0, i - start)[j] == d.subrange(0, i - 1 - start)[j]);
                }
            }
        }
    }
    assert(d.subrange(0, i - start) =~= d);
    Some(acc)
}

/// Whether a thumbnail whose first bytes are `prefix` is up to date for a
/// source modified at `source_secs` seconds after the epoch.
///
/// It is when the prefix records a modification time whose whole seconds
/// equal `source_secs`; a prefix that records none is never up to date.
pub fn is_fresh(prefix: &[u8], source_secs: u64) -> (r: bool)
    ensures
        r == fresh(prefix@, source_secs),
{
    match find_mtime(prefix) {
        Some((s, e)) => {
            let dot = find_byte(prefix, s, e, 46);
            let ghost v = prefix@.subrange(s as int, e as int);
            assert(prefix@.subrange(s as int, dot as int) =~= seconds_field(v));
            match parse_seconds(&prefix[s..dot]) {
                Some(t) => t == source_secs,
                None => false,
            }
        },
        None => false,
    }
}

/// A thumbnail is fresh for a source exactly when the whole seconds it
/// records are the source's: then it is fresh for that modification time,
/// and stale for any other.
pub proof fn lemma_fresh_exactly(b: Seq<u8>, secs: u64, other: u64)
    requires
        mtime_bytes(b) is Some,
        parse_decimal(seconds_field(mtime_bytes(b)->0)) == Some(secs),
        other != secs,
    ensures
        fresh(b, secs),
        !fresh(b, other),
{
}

} // verus!
