//! The textual identifier: `swh:1:<type>:<40 lowercase hex>`, its encoder,
//! its parser, and the round-trip law connecting them.

use vstd::prelude::*;

use crate::encoding::{hex_chars, hex_char_of, lemma_hex_chars_index, lemma_hex_chars_len};
use crate::error::SwhidError;
use crate::strutil::string_push;

verus! {

/// The five kinds of archived object.
#[derive(Debug, Clone, Copy, PartialEq, Eq, Hash, Structural)]
pub enum ObjectType {
    Content,
    Directory,
    Revision,
    Release,
    Snapshot,
}

/// The three-letter tag of each object kind as it appears in identifiers.
pub open spec fn tag_chars(t: ObjectType) -> Seq<char> {
    match t {
        ObjectType::Content => seq!['c', 'n', 't'],
        ObjectType::Directory => seq!['d', 'i', 'r'],
        ObjectType::Revision => seq!['r', 'e', 'v'],
        ObjectType::Release => seq!['r', 'e', 'l'],
        ObjectType::Snapshot => seq!['s', 'n', 'p'],
    }
}

/// The object kind named by a three-letter tag, if any.
pub open spec fn tag_of(s: Seq<char>) -> Option<ObjectType> {
    if s == tag_chars(ObjectType::Content) {
        Some(ObjectType::Content)
    } else if s == tag_chars(ObjectType::Directory) {
        Some(ObjectType::Directory)
    } else if s == tag_chars(ObjectType::Revision) {
        Some(ObjectType::Revision)
    } else if s == tag_chars(ObjectType::Release) {
        Some(ObjectType::Release)
    } else if s == tag_chars(ObjectType::Snapshot) {
        Some(ObjectType::Snapshot)
    } else {
        None
    }
}

pub proof fn lemma_tag_of_tag_chars(t: ObjectType)
    ensures
        tag_of(tag_chars(t)) == Some(t),
{
    match t {
        ObjectType::Content => {}
        ObjectType::Directory => {}
        ObjectType::Revision => {}
        ObjectType::Release => {}
        ObjectType::Snapshot => {}
    }
}

impl ObjectType {
    /// The fixed three-letter tag of this kind.
    pub fn as_str(&self) -> (r: &'static str)
        ensures
            r@ == tag_chars(*self),
    {
        match self {
            ObjectType::Content => {
                proof {
                    reveal_strlit("cnt");
                }
                "cnt"
            }
            ObjectType::Directory => {
                proof {
                    reveal_strlit("dir");
                }
                "dir"
            }
            ObjectType::Revision => {
                proof {
                    reveal_strlit("rev");
                }
                "rev"
            }
            ObjectType::Release => {
                proof {
                    reveal_strlit("rel");
                }
                "rel"
            }
            ObjectType::Snapshot => {
                proof {
                    reveal_strlit("snp");
                }
                "snp"
            }
        }
    }

    /// Resolves a three-letter tag; any other text is rejected.
    pub fn from_str(s: &str) -> (r: Result<Self, SwhidError>)
        ensures
            match r {
                Ok(t) => tag_of(s@) == Some(t),
                Err(e) => tag_of(s@) is None && e == SwhidError::InvalidObjectType,
            },
    {
        let chars = str_chars(s);
        match tag_lookup(&chars) {
            Some(t) => Ok(t),
            None => Err(SwhidError::InvalidObjectType),
        }
    }
}

/// Collects the characters of a string slice.
pub fn str_chars(s: &str) -> (r: Vec<char>)
    ensures
        r@ == s@,
{
    let n = s.unicode_len();
    let mut r: Vec<char> = Vec::new();
    for i in 0..n
        invariant
            n == s@.len(),
            r@ =~= s@.subrange(0, i as int),
    {
        r.push(s.get_char(i));
        assert(r@ =~= s@.subrange(0, i + 1));
    }
    assert(r@ =~= s@);
    r
}

/// Resolves a three-letter tag given as characters.
fn tag_lookup(s: &Vec<char>) -> (r: Option<ObjectType>)
    ensures
        r == tag_of(s@),
{
    if s.len() != 3 {
        assert(tag_of(s@) is None);
        return None;
    }
    let (a, b, c) = (s[0], s[1], s[2]);
    assert(s@ =~= seq![s@[0], s@[1], s@[2]]);
    if a == 'c' && b == 'n' && c == 't' {
        assert(s@ == tag_chars(ObjectType::Content));
        Some(ObjectType::Content)
    } else if a == 'd' && b == 'i' && c == 'r' {
        Some(ObjectType::Directory)
    } else if a == 'r' && b == 'e' && c == 'v' {
        Some(ObjectType::Revision)
    } else if a == 'r' && b == 'e' && c == 'l' {
        Some(ObjectType::Release)
    } else if a == 's' && b == 'n' && c == 'p' {
        Some(ObjectType::Snapshot)
    } else {
        None
    }
}

// ---------------------------------------------------------------------------
// Splitting on colons
// ---------------------------------------------------------------------------

/// Whether `s` holds no colon.
pub open spec fn colon_free(s: Seq<char>) -> bool {
    forall|j: int| 0 <= j < s.len() ==> s[j] != ':'
}

/// The fields of `s`, split on every colon: one more field than there are
/// colons, in order, each colon-free.
pub open spec fn split_colon(s: Seq<char>) -> Seq<Seq<char>>
    decreases s.len(),
{
    if s.len() == 0 {
        seq![Seq::<char>::empty()]
    } else if s.first() == ':' {
        seq![Seq::<char>::empty()] + split_colon(s.drop_first())
    } else {
        let rest = split_colon(s.drop_first());
        seq![seq![s.first()] + rest.first()] + rest.drop_first()
    }
}

/// Every split has at least one field.
pub proof fn lemma_split_len(s: Seq<char>)
    ensures
        split_colon(s).len() >= 1,
    decreases s.len(),
{
    if s.len() > 0 {
        lemma_split_len(s.drop_first());
    }
}

/// A colon-free string is a single field.
pub proof fn lemma_split_nocolon(s: Seq<char>)
    requires
        colon_free(s),
    ensures
        split_colon(s) == seq![s],
    decreases s.len(),
{
    if s.len() == 0 {
        assert(split_colon(s) =~~= seq![s]);
    } else {
        assert(forall|j: int| 0 <= j < s.len() - 1 ==> s.drop_first()[j] == s[j + 1]);
        lemma_split_nocolon(s.drop_first());
        lemma_split_len(s.drop_first());
        let rest = split_colon(s.drop_first());
        assert(rest.first() == s.drop_first());
        assert(seq![s.first()] + s.drop_first() =~= s);
        assert(split_colon(s) =~= seq![s]);
    }
}

/// Splitting a string that starts with a colon-free field: the field comes
/// off, and the rest splits on its own.
pub proof fn lemma_split_first(a: Seq<char>, b: Seq<char>)
    requires
        colon_free(a),
    ensures
        split_colon(a + seq![':'] + b) == seq![a] + split_colon(b),
    decreases a.len(),
{
    let s = a + seq![':'] + b;
    lemma_split_len(b);
    if a.len() == 0 {
        assert(s.first() == ':');
        assert(s.drop_first() =~= b);
        assert(a =~= Seq::<char>::empty());
        assert(split_colon(s) =~= seq![a] + split_colon(b));
    } else {
        assert(s.first() == a.first());
        assert(s.first() != ':');
        assert(forall|j: int| 0 <= j < a.len() - 1 ==> a.drop_first()[j] == a[j + 1]);
        assert(s.drop_first() =~= a.drop_first() + seq![':'] + b);
        lemma_split_first(a.drop_first(), b);
        let rest = split_colon(s.drop_first());
        assert(rest == seq![a.drop_first()] + split_colon(b));
        assert(rest.first() == a.drop_first());
        assert(rest.drop_first() =~= split_colon(b));
        assert(seq![s.first()] + rest.first() =~= a);
        assert(split_colon(s) =~= seq![a] + split_colon(b));
    }
}

// ---------------------------------------------------------------------------
// Field grammars
// ---------------------------------------------------------------------------

/// An ASCII decimal digit.
pub open spec fn is_digit(c: char) -> bool {
    48 <= c as u32 <= 57
}

/// A lowercase hex digit.
pub open spec fn is_hex_lower(c: char) -> bool {
    is_digit(c) || 97 <= c as u32 <= 102
}

/// The value of a lowercase hex digit.
pub open spec fn hex_val(c: char) -> u8 {
    if is_digit(c) {
        (c as u32 - 48) as u8
    } else if 97 <= c as u32 <= 102 {
        (c as u32 - 87) as u8
    } else {
        0
    }
}

pub open spec fn all_digits(s: Seq<char>) -> bool {
    forall|j: int| 0 <= j < s.len() ==> is_digit(#[trigger] s[j])
}

pub open spec fn all_hex_lower(s: Seq<char>) -> bool {
    forall|j: int| 0 <= j < s.len() ==> is_hex_lower(#[trigger] s[j])
}

/// The numeric value of a digit string.
pub open spec fn digits_val(s: Seq<char>) -> nat
    decreases s.len(),
{
    if s.len() == 0 {
        0
    } else {
        (digits_val(s.drop_last()) * 10 + (s.last() as u32 - 48)) as nat
    }
}

/// Whether a field parses, with standard unsigned-integer syntax (optional
/// leading `+`, then digits), to the number one.
pub open spec fn parses_to_one(f: Seq<char>) -> bool {
    let d = if f.len() >= 1 && f[0] == '+' {
        f.drop_first()
    } else {
        f
    };
    d.len() > 0 && all_digits(d) && digits_val(d) == 1
}

pub proof fn lemma_digits_val_zero(s: Seq<char>)
    requires
        all_digits(s),
    ensures
        digits_val(s) == 0 <==> (forall|j: int| 0 <= j < s.len() ==> s[j] == '0'),
    decreases s.len(),
{
    if s.len() > 0 {
        assert(all_digits(s.drop_last())) by {
            assert(forall|j: int| 0 <= j < s.len() - 1 ==> s.drop_last()[j] == s[j]);
        }
        lemma_digits_val_zero(s.drop_last());
        vstd::utf8::char_u32_cast(s.last(), s.last() as u32);
        if digits_val(s) == 0 {
            assert(digits_val(s.drop_last()) == 0);
            assert(s.last() as u32 == 48);
            assert(('0' as u32) == 48);
            assert(s.last() == '0');
            assert(forall|j: int| 0 <= j < s.len() - 1 ==> s[j] == s.drop_last()[j]);
        } else {
            if forall|j: int| 0 <= j < s.len() ==> s[j] == '0' {
                assert(forall|j: int| 0 <= j < s.len() - 1 ==> s.drop_last()[j] == '0');
                assert(s.last() == '0');
                assert(('0' as u32) == 48);
                assert(false);
            }
        }
    }
}

/// A digit string has value one exactly when it is zeros followed by `1`.
pub proof fn lemma_digits_val_one(s: Seq<char>)
    requires
        all_digits(s),
        s.len() > 0,
    ensures
        digits_val(s) == 1 <==> (s.last() == '1' && (forall|j: int|
            0 <= j < s.len() - 1 ==> s[j] == '0')),
{
    assert(all_digits(s.drop_last())) by {
        assert(forall|j: int| 0 <= j < s.len() - 1 ==> s.drop_last()[j] == s[j]);
    }
    lemma_digits_val_zero(s.drop_last());
    assert(('1' as u32) == 49);
    vstd::utf8::char_u32_cast(s.last(), s.last() as u32);
    assert(forall|j: int| 0 <= j < s.len() - 1 ==> s[j] == s.drop_last()[j]);
}

/// The bytes named by a lowercase hex string, two characters per byte.
pub open spec fn hex_decode(h: Seq<char>) -> Seq<u8> {
    Seq::new(h.len() / 2, |i: int| (16 * hex_val(h[2 * i]) + hex_val(h[2 * i + 1])) as u8)
}

/// Hex rendering and hex parsing are mutually inverse.
pub proof fn lemma_hex_decode_encode(id: Seq<u8>)
    ensures
        hex_decode(hex_chars(id)) =~= id,
{
    lemma_hex_chars_len(id);
    assert forall|i: int| 0 <= i < id.len() implies hex_decode(hex_chars(id))[i] == id[i] by {
        lemma_hex_chars_index(id, i);
        lemma_hex_char_val(id[i] / 16);
        lemma_hex_char_val(id[i] % 16);
    }
}

/// Rendering a value below 16 and reading it back is the identity, and the
/// rendered character is lowercase hex.
pub proof fn lemma_hex_char_val(d: u8)
    requires
        d < 16,
    ensures
        hex_val(hex_char_of(d)) == d,
        is_hex_lower(hex_char_of(d)),
{
    if d < 10 {
        let c = ((48 + d) as u8) as char;
        assert(c as u32 == 48 + d);
        assert(hex_val(c) == d);
    } else {
        let c = ((87 + d) as u8) as char;
        assert(c as u32 == 87 + d);
        assert(hex_val(c) == d);
    }
}

// ---------------------------------------------------------------------------
// The identifier
// ---------------------------------------------------------------------------

/// The textual form of an identifier: `swh:1:`, the type tag, a colon, then
/// the forty lowercase hex characters of the object id.
pub open spec fn spec_encode(t: ObjectType, id: Seq<u8>) -> Seq<char> {
    seq!['s', 'w', 'h', ':', '1', ':'] + tag_chars(t) + seq![':'] + hex_chars(id)
}

/// What parsing a candidate identifier yields: the object kind and the
/// twenty id bytes, or the first failing check.
pub open spec fn spec_parse(s: Seq<char>) -> Result<(ObjectType, Seq<u8>), SwhidError> {
    let fs = split_colon(s);
    if fs.len() != 4 {
        Err(SwhidError::InvalidFormat)
    } else if fs[0] != seq!['s', 'w', 'h'] {
        Err(SwhidError::InvalidNamespace)
    } else if !parses_to_one(fs[1]) {
        Err(SwhidError::InvalidVersion)
    } else if tag_of(fs[2]) is None {
        Err(SwhidError::InvalidObjectType)
    } else if fs[3].len() != 40 {
        Err(SwhidError::InvalidHashLength(fs[3].len() as usize))
    } else if !all_hex_lower(fs[3]) {
        Err(SwhidError::InvalidHash)
    } else {
        Ok((tag_of(fs[2])->Some_0, hex_decode(fs[3])))
    }
}

/// A string in the exact canonical shape of some identifier.
pub open spec fn spec_valid(s: Seq<char>) -> bool {
    exists|t: ObjectType, id: Seq<u8>| id.len() == 20 && s == #[trigger] spec_encode(t, id)
}

/// A Software Heritage identifier: a fixed namespace and scheme version, an
/// object kind, and a 20-byte object id.
#[derive(Debug, Clone, PartialEq, Eq, Hash)]
pub struct Swhid {
    object_type: ObjectType,
    object_id: Vec<u8>,
}

impl Swhid {
    /// The object kind, as seen by contracts.
    pub closed spec fn spec_type(&self) -> ObjectType {
        self.object_type
    }

    /// The id bytes, as seen by contracts.
    pub closed spec fn id_bytes(&self) -> Seq<u8> {
        self.object_id@
    }

    /// The invariant every constructed identifier satisfies.
    pub open spec fn wf(&self) -> bool {
        self.id_bytes().len() == 20
    }

    /// Builds an identifier from a kind and a 20-byte object id.
    pub fn new(object_type: ObjectType, object_id: Vec<u8>) -> (r: Self)
        requires
            object_id@.len() == 20,
        ensures
            r.spec_type() == object_type,
            r.id_bytes() == object_id@,
            r.wf(),
    {
        Swhid { object_type, object_id }
    }

    /// The fixed namespace, `swh`.
    pub fn namespace(&self) -> (r: &'static str)
        ensures
            r@ == seq!['s', 'w', 'h'],
    {
        proof {
            reveal_strlit("swh");
        }
        "swh"
    }

    /// The fixed scheme version.
    pub fn scheme_version(&self) -> (r: u32)
        ensures
            r == 1,
    {
        1
    }

    pub fn object_type(&self) -> (r: ObjectType)
        ensures
            r == self.spec_type(),
    {
        self.object_type
    }

    pub fn object_id(&self) -> (r: &Vec<u8>)
        ensures
            r@ == self.id_bytes(),
    {
        &self.object_id
    }

    /// Renders the textual form `swh:1:<tag>:<40 hex>`.
    pub fn encode(&self) -> (r: String)
        requires
            self.wf(),
        ensures
            r@ == spec_encode(self.spec_type(), self.id_bytes()),
    {
        let mut out = String::new();
        string_push(&mut out, 's');
        string_push(&mut out, 'w');
        string_push(&mut out, 'h');
        string_push(&mut out, ':');
        string_push(&mut out, '1');
        string_push(&mut out, ':');
        assert(out@ =~= seq!['s', 'w', 'h', ':', '1', ':']);
        let tag = self.object_type.as_str();
        let ghost mid = out@ + tag_chars(self.object_type) + seq![':'];
        for i in 0..3usize
            invariant
                tag@ == tag_chars(self.object_type),
                tag@.len() == 3,
                out@ =~= seq!['s', 'w', 'h', ':', '1', ':'] + tag@.subrange(0, i as int),
        {
            string_push(&mut out, tag.get_char(i));
            assert(out@ =~= seq!['s', 'w', 'h', ':', '1', ':'] + tag@.subrange(0, i + 1));
        }
        string_push(&mut out, ':');
        assert(out@ =~= mid);
        let ghost id = self.object_id@;
        proof {
            lemma_hex_chars_len(id);
        }
        let n = self.object_id.len();
        for i in 0..n
            invariant
                n == id.len(),
                id == self.object_id@,
                hex_chars(id).len() == 2 * n,
                out@ =~= mid + Seq::new(2 * i as nat, |j: int| hex_chars(id)[j]),
        {
            let b = self.object_id[i];
            let hi: u8 = b / 16;
            let lo: u8 = b % 16;
            let hc: char = (if hi < 10 {
                48 + hi
            } else {
                87 + hi
            }) as char;
            let lc: char = (if lo < 10 {
                48 + lo
            } else {
                87 + lo
            }) as char;
            proof {
                lemma_hex_chars_index(id, i as int);
            }
            string_push(&mut out, hc);
            string_push(&mut out, lc);
            assert(out@ =~= mid + Seq::new((2 * (i + 1)) as nat, |j: int| hex_chars(id)[j]));
        }
        assert(out@ =~= spec_encode(self.object_type, self.object_id@));
        out
    }
}

// ---------------------------------------------------------------------------
// Parsing
// ---------------------------------------------------------------------------

/// Splits characters on colons, mirroring `split_colon`.
fn split_chars(s: &Vec<char>) -> (r: Vec<Vec<char>>)
    ensures
        r.deep_view() == split_colon(s@),
{
    let n = s.len();
    let mut fields: Vec<Vec<char>> = Vec::new();
    let mut cur: Vec<char> = Vec::new();
    assert(cur@ + s@.skip(0) =~= s@);
    assert(fields.deep_view() =~~= Seq::<Seq<char>>::empty());
    assert(split_colon(s@) =~~= fields.deep_view() + split_colon(cur@ + s@.skip(0)));
    for i in 0..n
        invariant
            n == s@.len(),
            colon_free(cur@),
            split_colon(s@) =~~= fields.deep_view() + split_colon(cur@ + s@.skip(i as int)),
    {
        let c = s[i];
        assert(s@.skip(i as int) =~= seq![s@[i as int]] + s@.skip(i + 1));
        if c == ':' {
            proof {
                lemma_split_first(cur@, s@.skip(i + 1));
                assert(cur@ + s@.skip(i as int) =~= cur@ + seq![':'] + s@.skip(i + 1));
            }
            let ghost old_fields = fields.deep_view();
            fields.push(cur);
            assert(fields.deep_view() =~~= old_fields.push(cur@));
            cur = Vec::new();
            assert(cur@ + s@.skip(i + 1) =~= s@.skip(i + 1));
            assert(split_colon(s@) =~~= fields.deep_view() + split_colon(cur@ + s@.skip(i + 1)));
        } else {
            let ghost old_cur = cur@;
            cur.push(c);
            assert(cur@ + s@.skip(i + 1) =~= old_cur + s@.skip(i as int));
            assert(split_colon(s@) =~~= fields.deep_view() + split_colon(cur@ + s@.skip(i + 1)));
        }
    }
    assert(cur@ + s@.skip(n as int) =~= cur@);
    proof {
        lemma_split_nocolon(cur@);
    }
    let ghost old_fields = fields.deep_view();
    fields.push(cur);
    assert(fields.deep_view() =~~= old_fields.push(cur@));
    assert(fields.deep_view() =~~= split_colon(s@));
    fields
}

/// Decides whether a field parses to the number one with standard
/// unsigned-integer syntax.
fn version_is_one(f: &Vec<char>) -> (r: bool)
    ensures
        r == parses_to_one(f@),
{
    let start: usize = if f.len() >= 1 && f[0] == '+' {
        1
    } else {
        0
    };
    let ghost d = if f@.len() >= 1 && f@[0] == '+' {
        f@.drop_first()
    } else {
        f@
    };
    assert(d =~= f@.skip(start as int));
    let n = f.len();
    assert(d.len() == n - start);
    if n == start {
        assert(d.len() == 0);
        return false;
    }
    for j in iter: start..n
        invariant
            n == f@.len(),
            start <= j <= n,
            d == f@.skip(start as int),
            d == (if f@.len() >= 1 && f@[0] == '+' {
                f@.drop_first()
            } else {
                f@
            }),
            forall|k: int| 0 <= k < j - start ==> is_digit(#[trigger] d[k]),
    {
        let u = f[j] as u32;
        assert(d[j - start] == f@[j as int]);
        if !(48 <= u && u <= 57) {
            assert(!is_digit(d[j - start]));
            assert(!all_digits(d));
            return false;
        }
        assert(is_digit(d[j - start]));
    }
    assert(all_digits(d));
    proof {
        lemma_digits_val_one(d);
    }
    if f[n - 1] != '1' {
        assert(d.last() == f@[n - 1]);
        assert(digits_val(d) != 1);
        return false;
    }
    for j in iter: start..(n - 1)
        invariant
            n == f@.len(),
            start <= j <= n - 1,
            d == f@.skip(start as int),
            d == (if f@.len() >= 1 && f@[0] == '+' {
                f@.drop_first()
            } else {
                f@
            }),
            all_digits(d),
            d.last() == '1',
            d.len() > 0,
            forall|k: int| 0 <= k < j - start ==> #[trigger] d[k] == '0',
    {
        if f[j] != '0' {
            assert(d[j - start] == f@[j as int]);
            assert(d[j - start] != '0');
            proof {
                lemma_digits_val_one(d);
            }
            assert(digits_val(d) != 1);
            return false;
        }
        assert(d[j - start] == f@[j as int]);
        assert(d[j - start] == '0');
    }
    proof {
        lemma_digits_val_one(d);
    }
    assert(forall|k: int| 0 <= k < d.len() - 1 ==> #[trigger] d[k] == '0');
    assert(digits_val(d) == 1);
    true
}

/// The value of one lowercase hex character, if it is one.
fn hex_digit_val(c: char) -> (r: Option<u8>)
    ensures
        r is Some <==> is_hex_lower(c),
        r matches Some(v) ==> v == hex_val(c),
{
    let u = c as u32;
    if 48 <= u && u <= 57 {
        Some((u - 48) as u8)
    } else if 97 <= u && u <= 102 {
        Some((u - 87) as u8)
    } else {
        None
    }
}

/// Decides whether a field is exactly `swh`.
fn is_swh_field(f: &Vec<char>) -> (r: bool)
    ensures
        r == (f@ == seq!['s', 'w', 'h']),
{
    if f.len() != 3 {
        return false;
    }
    if f[0] == 's' && f[1] == 'w' && f[2] == 'h' {
        assert(f@ =~= seq!['s', 'w', 'h']);
        true
    } else {
        false
    }
}

impl Swhid {
    /// Parses the textual form, rejecting the first field that deviates
    /// from `swh:1:<tag>:<40 lowercase hex>`.
    pub fn from_string(s: &str) -> (r: Result<Self, SwhidError>)
        ensures
            match r {
                Ok(w) => spec_parse(s@) matches Ok(p) && w.spec_type() == p.0 && w.id_bytes()
                    == p.1 && w.wf(),
                Err(e) => spec_parse(s@) matches Err(e2) && e == e2,
            },
    {
        let chars = str_chars(s);
        let fields = split_chars(&chars);
        let ghost fs = split_colon(s@);
        assert(fields.deep_view() == fs);
        assert(fields@.len() == fs.len());
        if fields.len() != 4 {
            return Err(SwhidError::InvalidFormat);
        }
        assert(forall|i: int| 0 <= i < 4 ==> #[trigger] fields@[i]@ == fs[i]);
        if !is_swh_field(&fields[0]) {
            return Err(SwhidError::InvalidNamespace);
        }
        if !version_is_one(&fields[1]) {
            return Err(SwhidError::InvalidVersion);
        }
        let t = match tag_lookup(&fields[2]) {
            Some(t) => t,
            None => {
                return Err(SwhidError::InvalidObjectType);
            }
        };
        let hex_field = &fields[3];
        assert(hex_field@ == fs[3]);
        if hex_field.len() != 40 {
            return Err(SwhidError::InvalidHashLength(hex_field.len()));
        }
        let mut id: Vec<u8> = Vec::new();
        for i in 0..20usize
            invariant
                fs == split_colon(s@),
                fs.len() == 4,
                fs[0] == seq!['s', 'w', 'h'],
                parses_to_one(fs[1]),
                tag_of(fs[2]) == Some(t),
                hex_field@.len() == 40,
                hex_field@ == fs[3],
                id@.len() == i,
                forall|k: int| 0 <= k < 2 * i ==> is_hex_lower(#[trigger] hex_field@[k]),
                forall|k: int|
                    0 <= k < i ==> #[trigger] id@[k] == (16 * hex_val(hex_field@[2 * k]) + hex_val(
                        hex_field@[2 * k + 1],
                    )) as u8,
        {
            let hi = match hex_digit_val(hex_field[2 * i]) {
                Some(v) => v,
                None => {
                    assert(!is_hex_lower(fs[3][2 * i as int]));
                    assert(!all_hex_lower(fs[3]));
                    return Err(SwhidError::InvalidHash);
                }
            };
            let lo = match hex_digit_val(hex_field[2 * i + 1]) {
                Some(v) => v,
                None => {
                    assert(!is_hex_lower(fs[3][2 * i + 1]));
                    assert(!all_hex_lower(fs[3]));
                    return Err(SwhidError::InvalidHash);
                }
            };
            assert(hi < 16 && lo < 16);
            id.push(16 * hi + lo);
        }
        assert(all_hex_lower(fs[3]));
        assert(id@ =~= hex_decode(fs[3]));
        Ok(Swhid { object_type: t, object_id: id })
    }
}

// ---------------------------------------------------------------------------
// The round trip
// ---------------------------------------------------------------------------

/// Every character of a hex rendering is lowercase hex.
pub proof fn lemma_hex_chars_all_lower(id: Seq<u8>)
    ensures
        all_hex_lower(hex_chars(id)),
        colon_free(hex_chars(id)),
{
    lemma_hex_chars_len(id);
    assert forall|j: int| 0 <= j < hex_chars(id).len() implies is_hex_lower(
        #[trigger] hex_chars(id)[j],
    ) by {
        let i = j / 2;
        lemma_hex_chars_index(id, i);
        lemma_hex_char_val(id[i] / 16);
        lemma_hex_char_val(id[i] % 16);
        if j % 2 == 0 {
            assert(j == 2 * i);
        } else {
            assert(j == 2 * i + 1);
        }
    }
    assert forall|j: int| 0 <= j < hex_chars(id).len() implies hex_chars(id)[j] != ':' by {
        assert(is_hex_lower(hex_chars(id)[j]));
        assert((':' as u32) == 58);
    }
}

/// Parsing an encoded identifier recovers the kind and the id bytes.
pub proof fn lemma_parse_of_encode(t: ObjectType, id: Seq<u8>)
    requires
        id.len() == 20,
    ensures
        spec_parse(spec_encode(t, id)) == Ok::<(ObjectType, Seq<u8>), SwhidError>((t, id)),
{
    let s = spec_encode(t, id);
    let swh = seq!['s', 'w', 'h'];
    let one = seq!['1'];
    let tag = tag_chars(t);
    let hex = hex_chars(id);
    lemma_hex_chars_len(id);
    lemma_hex_chars_all_lower(id);
    assert(colon_free(swh));
    assert(colon_free(one));
    assert(colon_free(tag)) by {
        match t {
            ObjectType::Content => {}
            ObjectType::Directory => {}
            ObjectType::Revision => {}
            ObjectType::Release => {}
            ObjectType::Snapshot => {}
        }
    }
    let rest2 = tag + seq![':'] + hex;
    let rest1 = one + seq![':'] + rest2;
    assert(s =~= swh + seq![':'] + rest1);
    lemma_split_first(swh, rest1);
    lemma_split_first(one, rest2);
    lemma_split_first(tag, hex);
    lemma_split_nocolon(hex);
    let fs = split_colon(s);
    assert(fs =~~= seq![swh, one, tag, hex]);
    assert(fs.len() == 4);
    assert(fs[0] == swh);
    assert(fs[1] == one);
    assert(fs[2] == tag);
    assert(fs[3] == hex);
    assert(parses_to_one(one)) by {
        assert(one[0] != '+') by {
            assert(('1' as u32) == 49);
            assert(('+' as u32) == 43);
            vstd::utf8::char_u32_cast('1', 49);
        }
        assert(all_digits(one)) by {
            assert(('1' as u32) == 49);
        }
        assert(digits_val(one) == 1) by {
            assert(one.drop_last() =~= Seq::<char>::empty());
            assert(digits_val(Seq::<char>::empty()) == 0);
            assert(('1' as u32) == 49);
        }
    }
    lemma_tag_of_tag_chars(t);
    assert(fs[3].len() == 40);
    lemma_hex_decode_encode(id);
    assert(spec_parse(s) == Ok::<(ObjectType, Seq<u8>), SwhidError>((t, id)));
}

/// The round-trip law: re-encoding what a syntactically valid identifier
/// parses to yields the identical string.
pub proof fn lemma_encode_parse_round_trip(s: Seq<char>)
    requires
        spec_valid(s),
    ensures
        spec_parse(s) is Ok,
        spec_encode(spec_parse(s)->Ok_0.0, spec_parse(s)->Ok_0.1) == s,
{
    let (t, id) = choose|t: ObjectType, id: Seq<u8>|
        id.len() == 20 && s == #[trigger] spec_encode(t, id);
    lemma_parse_of_encode(t, id);
}

} // verus!
