//! Byte-level building blocks shared by the canonical encoders: decimal and
//! hex rendering, the lexicographic order on byte strings, and substring
//! search for exclusion patterns.

use vstd::prelude::*;

verus! {

// ---------------------------------------------------------------------------
// Decimal rendering
// ---------------------------------------------------------------------------

/// The ASCII decimal digits of `n`, most significant first.
pub open spec fn dec_digits(n: nat) -> Seq<u8>
    decreases n,
{
    if n < 10 {
        seq![(48 + n) as u8]
    } else {
        dec_digits(n / 10) + seq![(48 + n % 10) as u8]
    }
}

/// The ASCII rendering of a signed number: a `-` sign, then the digits of
/// its magnitude.
pub open spec fn dec_int(v: int) -> Seq<u8> {
    if v < 0 {
        seq![45u8] + dec_digits((-v) as nat)
    } else {
        dec_digits(v as nat)
    }
}

/// `s` left-padded with ASCII `0` up to width `w`.
pub open spec fn zero_pad(s: Seq<u8>, w: nat) -> Seq<u8> {
    if s.len() >= w {
        s
    } else {
        Seq::new((w - s.len()) as nat, |i: int| 48u8) + s
    }
}

/// Renders `n` in decimal.
pub fn dec_u64(n: u64) -> (r: Vec<u8>)
    ensures
        r@ == dec_digits(n as nat),
        r@.len() >= 1,
{
    let mut r: Vec<u8> = Vec::new();
    let mut m: u64 = n;
    while m >= 10
        invariant
            dec_digits(n as nat) =~= dec_digits(m as nat) + r@,
        decreases m,
    {
        let d: u8 = 48 + (m % 10) as u8;
        r.insert(0, d);
        m = m / 10;
        assert(dec_digits(n as nat) =~= dec_digits(m as nat) + r@);
    }
    r.insert(0, 48 + (m % 10) as u8);
    assert(m % 10 == m as nat);
    assert(r@ =~= dec_digits(n as nat));
    r
}

/// Renders `v` in decimal with a `-` sign when negative.
pub fn dec_i64(v: i64) -> (r: Vec<u8>)
    requires
        v > i64::MIN,
    ensures
        r@ == dec_int(v as int),
{
    if v < 0 {
        let mut r = dec_u64((-v) as u64);
        r.insert(0, 45);
        assert(r@ =~= dec_int(v as int));
        r
    } else {
        dec_u64(v as u64)
    }
}

/// Renders `n` in decimal, left-padded with zeros up to `width` digits.
pub fn dec_u64_pad(n: u64, width: usize) -> (r: Vec<u8>)
    ensures
        r@ == zero_pad(dec_digits(n as nat), width as nat),
{
    let mut r = dec_u64(n);
    let ghost digits = r@;
    while r.len() < width
        invariant
            digits == dec_digits(n as nat),
            r@.len() >= digits.len(),
            r@.len() == digits.len() || r@.len() <= width as nat,
            r@ =~= Seq::new((r@.len() - digits.len()) as nat, |i: int| 48u8) + digits,
        decreases width - r.len(),
    {
        r.insert(0, 48);
        assert(r@ =~= Seq::new((r@.len() - digits.len()) as nat, |i: int| 48u8) + digits);
    }
    assert(r@ =~= zero_pad(digits, width as nat));
    r
}

// ---------------------------------------------------------------------------
// Hex rendering
// ---------------------------------------------------------------------------

/// The lowercase hex character for the value `d` (which must be below 16).
pub open spec fn hex_char_of(d: u8) -> char {
    if d < 10 {
        ((48 + d) as u8) as char
    } else {
        ((87 + d) as u8) as char
    }
}

/// The lowercase hex rendering of a byte string as characters, two per byte.
pub open spec fn hex_chars(s: Seq<u8>) -> Seq<char>
    decreases s.len(),
{
    if s.len() == 0 {
        Seq::empty()
    } else {
        seq![hex_char_of(s.first() / 16), hex_char_of(s.first() % 16)] + hex_chars(s.drop_first())
    }
}

/// The lowercase hex rendering of a byte string as ASCII bytes.
pub open spec fn hex_bytes(s: Seq<u8>) -> Seq<u8> {
    Seq::new(hex_chars(s).len(), |i: int| hex_chars(s)[i] as u8)
}

pub proof fn lemma_hex_chars_len(s: Seq<u8>)
    ensures
        hex_chars(s).len() == 2 * s.len(),
    decreases s.len(),
{
    if s.len() > 0 {
        lemma_hex_chars_len(s.drop_first());
    }
}

/// Appends the lowercase hex rendering of `s` to `out`.
pub fn push_hex(out: &mut Vec<u8>, s: &[u8])
    ensures
        final(out)@ == old(out)@ + hex_bytes(s@),
{
    proof {
        lemma_hex_chars_len(s@);
    }
    let ghost base = out@;
    let n = s.len();
    for i in 0..n
        invariant
            n == s@.len(),
            hex_chars(s@).len() == 2 * n,
            out@.len() == base.len() + 2 * i,
            out@ =~= base + Seq::new(2 * i as nat, |j: int| hex_chars(s@)[j] as u8),
    {
        let b = s[i];
        let hi: u8 = b / 16;
        let lo: u8 = b % 16;
        let hc: u8 = if hi < 10 { 48 + hi } else { 87 + hi };
        let lc: u8 = if lo < 10 { 48 + lo } else { 87 + lo };
        proof {
            lemma_hex_chars_index(s@, i as int);
        }
        out.push(hc);
        out.push(lc);
        assert(out@ =~= base + Seq::new((2 * (i + 1)) as nat, |j: int| hex_chars(s@)[j] as u8));
    }
    assert(final(out)@ =~= base + hex_bytes(s@));
}

/// Each byte of a sequence renders to the hex pair at its doubled index.
pub proof fn lemma_hex_chars_index(s: Seq<u8>, i: int)
    requires
        0 <= i < s.len(),
    ensures
        hex_chars(s).len() == 2 * s.len(),
        hex_chars(s)[2 * i] == hex_char_of(s[i] / 16),
        hex_chars(s)[2 * i + 1] == hex_char_of(s[i] % 16),
    decreases s.len(),
{
    lemma_hex_chars_len(s);
    if i > 0 {
        lemma_hex_chars_index(s.drop_first(), i - 1);
        lemma_hex_chars_len(s.drop_first());
    }
}

// ---------------------------------------------------------------------------
// Lexicographic order on byte strings
// ---------------------------------------------------------------------------

/// Strict lexicographic order on byte strings: a proper prefix sorts first,
/// otherwise the first differing byte decides.
pub open spec fn lex_lt(a: Seq<u8>, b: Seq<u8>) -> bool
    decreases a.len(),
{
    if b.len() == 0 {
        false
    } else if a.len() == 0 {
        true
    } else if a.first() < b.first() {
        true
    } else if a.first() > b.first() {
        false
    } else {
        lex_lt(a.drop_first(), b.drop_first())
    }
}

/// Non-strict lexicographic order.
pub open spec fn lex_le(a: Seq<u8>, b: Seq<u8>) -> bool {
    lex_lt(a, b) || a == b
}

/// Exactly one of `lex_lt(a, b)`, `a == b`, `lex_lt(b, a)` holds.
pub proof fn lemma_lex_trichotomy(a: Seq<u8>, b: Seq<u8>)
    ensures
        lex_lt(a, b) || a == b || lex_lt(b, a),
        lex_lt(a, b) ==> a != b && !lex_lt(b, a),
        a == b ==> !lex_lt(a, b) && !lex_lt(b, a),
    decreases a.len(),
{
    if a.len() == 0 || b.len() == 0 {
        if a.len() == 0 && b.len() == 0 {
            assert(a =~= b);
        }
    } else {
        lemma_lex_trichotomy(a.drop_first(), b.drop_first());
        if a.first() == b.first() && a.drop_first() == b.drop_first() {
            assert forall|i: int| 0 <= i < a.len() implies a[i] == b[i] by {
                if i > 0 {
                    assert(a[i] == a.drop_first()[i - 1]);
                    assert(b[i] == b.drop_first()[i - 1]);
                }
            }
            assert(a =~= b);
        }
        if a == b {
            assert(a.drop_first() =~= b.drop_first());
        }
    }
}

pub proof fn lemma_lex_lt_trans(a: Seq<u8>, b: Seq<u8>, c: Seq<u8>)
    requires
        lex_lt(a, b),
        lex_lt(b, c),
    ensures
        lex_lt(a, c),
    decreases a.len(),
{
    if a.len() == 0 {
        assert(b.len() > 0);
        assert(c.len() > 0);
    } else {
        assert(b.len() > 0 && c.len() > 0);
        if a.first() == b.first() && b.first() == c.first() {
            lemma_lex_lt_trans(a.drop_first(), b.drop_first(), c.drop_first());
        }
    }
}

/// A shared prefix up to a smaller byte witnesses the strict order.
pub proof fn lemma_lex_lt_at(a: Seq<u8>, b: Seq<u8>, i: int)
    requires
        0 <= i < a.len(),
        i < b.len(),
        forall|j: int| 0 <= j < i ==> a[j] == b[j],
        a[i] < b[i],
    ensures
        lex_lt(a, b),
    decreases i,
{
    if i == 0 {
    } else {
        lemma_lex_lt_at(a.drop_first(), b.drop_first(), i - 1);
    }
}

/// A proper prefix sorts strictly first.
pub proof fn lemma_lex_lt_prefix(a: Seq<u8>, b: Seq<u8>)
    requires
        a.len() < b.len(),
        forall|j: int| 0 <= j < a.len() ==> a[j] == b[j],
    ensures
        lex_lt(a, b),
    decreases a.len(),
{
    if a.len() > 0 {
        lemma_lex_lt_prefix(a.drop_first(), b.drop_first());
    }
}

/// Decides `lex_lt(a@, b@)`.
pub fn bytes_lt(a: &[u8], b: &[u8]) -> (r: bool)
    ensures
        r == lex_lt(a@, b@),
{
    let n = if a.len() < b.len() { a.len() } else { b.len() };
    for i in 0..n
        invariant
            n == if a@.len() < b@.len() { a@.len() } else { b@.len() },
            forall|j: int| 0 <= j < i ==> a@[j] == b@[j],
    {
        if a[i] < b[i] {
            proof {
                lemma_lex_lt_at(a@, b@, i as int);
            }
            return true;
        }
        if a[i] > b[i] {
            proof {
                lemma_lex_lt_at(b@, a@, i as int);
                lemma_lex_trichotomy(a@, b@);
            }
            return false;
        }
    }
    if a.len() < b.len() {
        proof {
            lemma_lex_lt_prefix(a@, b@);
        }
        true
    } else {
        proof {
            if a@.len() == b@.len() {
                assert(a@ =~= b@);
                lemma_lex_trichotomy(a@, b@);
            } else {
                lemma_lex_lt_prefix(b@, a@);
                lemma_lex_trichotomy(a@, b@);
            }
        }
        false
    }
}

/// Decides equality of two byte strings.
pub fn bytes_eq(a: &[u8], b: &[u8]) -> (r: bool)
    ensures
        r == (a@ == b@),
{
    if a.len() != b.len() {
        return false;
    }
    let n = a.len();
    for i in 0..n
        invariant
            n == a@.len() == b@.len(),
            forall|j: int| 0 <= j < i ==> a@[j] == b@[j],
    {
        if a[i] != b[i] {
            return false;
        }
    }
    assert(a@ =~= b@);
    true
}

// ---------------------------------------------------------------------------
// Substring search
// ---------------------------------------------------------------------------

/// Whether `needle` occurs contiguously inside `hay`.
pub open spec fn has_substring(hay: Seq<u8>, needle: Seq<u8>) -> bool {
    exists|i: int|
        0 <= i && i + needle.len() <= hay.len() && #[trigger] hay.subrange(i, i + needle.len())
            =~= needle
}

/// Decides whether `needle@` occurs inside `hay@`.
pub fn contains_bytes(hay: &[u8], needle: &[u8]) -> (r: bool)
    ensures
        r == has_substring(hay@, needle@),
{
    let m = needle.len();
    let hlen = hay.len();
    if m > hlen {
        return false;
    }
    if m == 0 {
        assert(hay@.subrange(0, 0 + needle@.len() as int) =~= needle@);
        return true;
    }
    let last = hlen - m;
    let mut i: usize = 0;
    while i <= last
        invariant
            m == needle@.len(),
            hlen == hay@.len(),
            1 <= m <= hlen,
            last == hlen - m,
            i <= last + 1,
            forall|k: int|
                0 <= k < i ==> #[trigger] hay@.subrange(k, k + needle@.len()) !~= needle@,
        decreases last + 1 - i,
    {
        let mut ok = true;
        let mut j: usize = 0;
        while j < m
            invariant
                m == needle@.len(),
                hlen == hay@.len(),
                i + m <= hlen,
                j <= m,
                ok <==> (forall|t: int| 0 <= t < j ==> hay@[i + t] == needle@[t]),
            decreases m - j,
        {
            if hay[i + j] != needle[j] {
                ok = false;
                j = m;
            } else {
                j = j + 1;
            }
        }
        if ok {
            assert(hay@.subrange(i as int, i + needle@.len()) =~= needle@);
            return true;
        }
        assert(hay@.subrange(i as int, i + needle@.len()) !~= needle@);
        i = i + 1;
    }
    false
}

// ---------------------------------------------------------------------------
// Appending
// ---------------------------------------------------------------------------

/// Appends a copy of `s` to `out`.
pub fn push_bytes(out: &mut Vec<u8>, s: &[u8])
    ensures
        final(out)@ == old(out)@ + s@,
{
    let ghost base = out@;
    let n = s.len();
    for i in 0..n
        invariant
            n == s@.len(),
            out@ =~= base + s@.subrange(0, i as int),
    {
        out.push(s[i]);
        assert(out@ =~= base + s@.subrange(0, i + 1));
    }
    assert(final(out)@ =~= base + s@);
}

} // verus!
