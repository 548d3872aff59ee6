//! The person codec: parsing a free-form display name into structured
//! name and email, and re-serializing it for revision and release bodies.

use vstd::prelude::*;

use vstd::utf8::{decode_utf8, encode_utf8, valid_utf8};

use crate::error::SwhidError;
use crate::strutil::{lossy_chars, utf8_string, utf8_string_lossy};
use crate::timestamp::{tstz_git_bytes, TimestampWithTimezone};

verus! {

// ---------------------------------------------------------------------------
// Whitespace and trimming
// ---------------------------------------------------------------------------

/// A character with the Unicode `White_Space` property, the set the
/// standard library's whitespace trimming removes.
pub open spec fn is_space(c: char) -> bool {
    let u = c as u32;
    u == 9 || u == 10 || u == 11 || u == 12 || u == 13 || u == 32 || u == 0x85 || u == 0xA0 || u
        == 0x1680 || (0x2000 <= u && u <= 0x200A) || u == 0x2028 || u == 0x2029 || u == 0x202F || u
        == 0x205F || u == 0x3000
}

/// Decides `is_space`.
pub fn is_space_char(c: char) -> (r: bool)
    ensures
        r == is_space(c),
{
    let u = c as u32;
    u == 9 || u == 10 || u == 11 || u == 12 || u == 13 || u == 32 || u == 0x85 || u == 0xA0 || u
        == 0x1680 || (0x2000 <= u && u <= 0x200A) || u == 0x2028 || u == 0x2029 || u == 0x202F || u
        == 0x205F || u == 0x3000
}

/// `s` without its leading whitespace.
pub open spec fn trim_start(s: Seq<char>) -> Seq<char>
    decreases s.len(),
{
    if s.len() > 0 && is_space(s.first()) {
        trim_start(s.drop_first())
    } else {
        s
    }
}

/// `s` without its trailing whitespace.
pub open spec fn trim_end(s: Seq<char>) -> Seq<char>
    decreases s.len(),
{
    if s.len() > 0 && is_space(s.last()) {
        trim_end(s.drop_last())
    } else {
        s
    }
}

/// `s` without leading and trailing whitespace.
pub open spec fn trim(s: Seq<char>) -> Seq<char> {
    trim_end(trim_start(s))
}

/// Skipping exactly the leading whitespace is what `trim_start` does.
pub proof fn lemma_trim_start_bound(s: Seq<char>, lo: int)
    requires
        0 <= lo <= s.len(),
        forall|j: int| 0 <= j < lo ==> is_space(#[trigger] s[j]),
        lo < s.len() ==> !is_space(s[lo]),
    ensures
        trim_start(s) == s.skip(lo),
    decreases lo,
{
    if lo == 0 {
        assert(s.skip(0) =~= s);
    } else {
        assert(is_space(s.first()));
        assert(forall|j: int| 0 <= j < s.len() - 1 ==> s.drop_first()[j] == s[j + 1]);
        lemma_trim_start_bound(s.drop_first(), lo - 1);
        assert(s.drop_first().skip(lo - 1) =~= s.skip(lo));
    }
}

/// Taking everything up to the trailing whitespace is what `trim_end` does.
pub proof fn lemma_trim_end_bound(s: Seq<char>, hi: int)
    requires
        0 <= hi <= s.len(),
        forall|j: int| hi <= j < s.len() ==> is_space(#[trigger] s[j]),
        hi > 0 ==> !is_space(s[hi - 1]),
    ensures
        trim_end(s) == s.take(hi),
    decreases s.len() - hi,
{
    if hi == s.len() {
        if s.len() > 0 {
            assert(!is_space(s.last()));
        }
        assert(s.take(hi) =~= s);
    } else {
        assert(is_space(s.last()));
        assert(forall|j: int| 0 <= j < s.len() - 1 ==> s.drop_last()[j] == s[j]);
        lemma_trim_end_bound(s.drop_last(), hi);
        assert(s.drop_last().take(hi) =~= s.take(hi));
    }
}

// ---------------------------------------------------------------------------
// The parse
// ---------------------------------------------------------------------------

/// The bounds of the email inside a display name: the last `<` and the
/// last `>` when both exist in that order.
pub open spec fn email_span(s: Seq<char>) -> Option<(int, int)> {
    match (s.index_of_last('<'), s.index_of_last('>')) {
        (Some(li), Some(ri)) => if li < ri {
            Some((li, ri))
        } else {
            None
        },
        _ => None,
    }
}

/// The email a display name parses to: the text strictly between the last
/// `<` and the last `>`, when they exist in that order.
pub open spec fn parsed_email(s: Seq<char>) -> Option<Seq<u8>> {
    match email_span(s) {
        Some((li, ri)) => Some(encode_utf8(s.subrange(li + 1, ri))),
        None => None,
    }
}

/// The name a display name parses to: the trimmed text before the email,
/// or the whole trimmed text when there is no email; absent when that
/// trim is empty.
pub open spec fn parsed_name(s: Seq<char>) -> Option<Seq<u8>> {
    let t = match email_span(s) {
        Some((li, ri)) => trim(s.take(li)),
        None => trim(s),
    };
    if t.len() == 0 {
        None
    } else {
        Some(encode_utf8(t))
    }
}

/// Finds the last occurrence of a character.
fn rfind_char(s: &Vec<char>, c: char) -> (r: Option<usize>)
    ensures
        r matches Some(i) ==> i < s@.len() && s@[i as int] == c && (forall|j: int|
            i < j < s@.len() ==> s@[j] != c),
        r is None ==> forall|j: int| 0 <= j < s@.len() ==> s@[j] != c,
{
    let n = s.len();
    let mut i = n;
    while i > 0
        invariant
            n == s@.len(),
            i <= n,
            forall|j: int| i <= j < s@.len() ==> s@[j] != c,
        decreases i,
    {
        i = i - 1;
        if s[i] == c {
            return Some(i);
        }
    }
    None
}

/// `rfind_char`'s answer is `index_of_last`.
proof fn lemma_rfind_is_index_of_last(s: Seq<char>, c: char, r: Option<usize>)
    requires
        r matches Some(i) ==> i < s.len() && s[i as int] == c && (forall|j: int|
            i < j < s.len() ==> s[j] != c),
        r is None ==> forall|j: int| 0 <= j < s.len() ==> s[j] != c,
    ensures
        s.index_of_last(c) == match r {
            Some(i) => Some(i as int),
            None => None,
        },
{
    s.index_of_last_ensures(c);
    match r {
        Some(i) => {
            assert(s.contains(c)) by {
                assert(s[i as int] == c);
            }
            let idx = s.index_of_last(c)->Some_0;
            if idx < i {
                assert(s[i as int] != c);
                assert(false);
            }
            if idx > i {
                assert(s[idx] != c);
                assert(false);
            }
        }
        None => {
            if s.contains(c) {
                let w = choose|j: int| 0 <= j < s.len() && s[j] == c;
                assert(s[w] != c);
                assert(false);
            }
        }
    }
}

// ---------------------------------------------------------------------------
// The person
// ---------------------------------------------------------------------------

/// The author or committer of a revision or release.  The full name is
/// authoritative and re-serialized verbatim; name and email are
/// best-effort parses.
#[derive(Debug, Clone, PartialEq, Eq, Hash)]
pub struct Person {
    pub fullname: Vec<u8>,
    pub name: Option<Vec<u8>>,
    pub email: Option<Vec<u8>>,
}

impl Person {
    /// A person with only a full name.
    pub fn new(fullname: Vec<u8>) -> (r: Self)
        ensures
            r.fullname@ == fullname@,
            r.name is None,
            r.email is None,
    {
        Person { fullname, name: None, email: None }
    }

    /// A person with every field supplied by the caller.
    pub fn with_details(fullname: Vec<u8>, name: Option<Vec<u8>>, email: Option<Vec<u8>>) -> (r:
        Self)
        ensures
            r.fullname@ == fullname@,
            r.name == name,
            r.email == email,
    {
        Person { fullname, name, email }
    }

    /// Parses a display name such as `John Doe <john@example.com>`: the
    /// email is the text between the last `<` and the last `>`, the name
    /// is the trimmed text before it, and the input is kept verbatim as
    /// the full name.
    pub fn from_fullname(fullname: &str) -> (r: Result<Self, SwhidError>)
        ensures
            r matches Ok(p) && p.fullname@ == encode_utf8(fullname@) && p.name.deep_view()
                == parsed_name(fullname@) && p.email.deep_view() == parsed_email(fullname@),
    {
        let ghost s = fullname@;
        let chars = crate::swhid::str_chars(fullname);
        let fullname_bytes = fullname.as_bytes_vec();
        let lt = rfind_char(&chars, '<');
        let gt = rfind_char(&chars, '>');
        proof {
            lemma_rfind_is_index_of_last(s, '<', lt);
            lemma_rfind_is_index_of_last(s, '>', gt);
        }
        let span: Option<(usize, usize)> = match (lt, gt) {
            (Some(li), Some(ri)) => if li < ri {
                Some((li, ri))
            } else {
                None
            },
            _ => None,
        };
        assert(match span {
            Some(p) => email_span(s) == Some((p.0 as int, p.1 as int)),
            None => email_span(s) is None,
        });
        match span {
            Some((li, ri)) => {
                let email = fullname.substring_char(li + 1, ri).as_bytes_vec();
                assert(email@ == encode_utf8(s.subrange(li + 1, ri as int)));
                let name = trimmed_region_bytes(fullname, &chars, li);
                let p = Person { fullname: fullname_bytes, name, email: Some(email) };
                proof {
                    assert(p.email.deep_view() matches Some(e) && e =~= email@);
                    assert(p.email.deep_view() == parsed_email(s));
                    match p.name {
                        Some(ref b) => {
                            assert(p.name.deep_view() matches Some(nb) && nb =~= b@);
                        }
                        None => {}
                    }
                    assert(p.name.deep_view() == parsed_name(s));
                }
                Ok(p)
            }
            None => {
                let name = trimmed_region_bytes(fullname, &chars, chars.len());
                let p = Person { fullname: fullname_bytes, name, email: None };
                proof {
                    assert(s.take(s.len() as int) =~= s);
                    assert(p.email.deep_view() == parsed_email(s));
                    match p.name {
                        Some(ref b) => {
                            assert(p.name.deep_view() matches Some(nb) && nb =~= b@);
                        }
                        None => {}
                    }
                    assert(p.name.deep_view() == parsed_name(s));
                }
                Ok(p)
            }
        }
    }

    /// Renders the person for a git manifest: the full name verbatim and,
    /// when a date is given, a space and the date's git form.
    pub fn format_for_git(&self, date: Option<&TimestampWithTimezone>) -> (r: Vec<u8>)
        requires
            date matches Some(d) ==> d.timestamp.wf(),
        ensures
            r@ == self.fullname@ + match date {
                Some(d) => seq![32u8] + tstz_git_bytes(d),
                None => Seq::<u8>::empty(),
            },
    {
        let mut r = self.fullname.clone();
        match date {
            Some(d) => {
                r.push(32);
                let git = d.format_for_git();
                crate::encoding::push_bytes(&mut r, git.as_slice());
                assert(r@ =~= self.fullname@ + (seq![32u8] + tstz_git_bytes(d)));
            }
            None => {
                assert(r@ =~= self.fullname@ + Seq::<u8>::empty());
            }
        }
        r
    }

    /// The full name as text, when it is valid UTF-8.
    pub fn fullname_str(&self) -> (r: Result<String, SwhidError>)
        ensures
            r is Ok <==> valid_utf8(self.fullname@),
            r matches Ok(t) ==> t@ == decode_utf8(self.fullname@),
            r matches Err(e) ==> e == SwhidError::InvalidFormat,
    {
        match utf8_string(self.fullname.clone()) {
            Some(t) => Ok(t),
            None => Err(SwhidError::InvalidFormat),
        }
    }

    /// The parsed name as text, when present and valid UTF-8.
    pub fn name_str(&self) -> (r: Result<Option<String>, SwhidError>)
        ensures
            match self.name {
                None => r matches Ok(o) && o is None,
                Some(n) => {
                    &&& r is Ok <==> valid_utf8(n@)
                    &&& r matches Ok(o) ==> o matches Some(t) && t@ == decode_utf8(n@)
                    &&& r matches Err(e) ==> e == SwhidError::InvalidFormat
                },
            },
    {
        match &self.name {
            None => Ok(None),
            Some(n) => match utf8_string(n.clone()) {
                Some(t) => Ok(Some(t)),
                None => Err(SwhidError::InvalidFormat),
            },
        }
    }

    /// The parsed email as text, when present and valid UTF-8.
    pub fn email_str(&self) -> (r: Result<Option<String>, SwhidError>)
        ensures
            match self.email {
                None => r matches Ok(o) && o is None,
                Some(n) => {
                    &&& r is Ok <==> valid_utf8(n@)
                    &&& r matches Ok(o) ==> o matches Some(t) && t@ == decode_utf8(n@)
                    &&& r matches Err(e) ==> e == SwhidError::InvalidFormat
                },
            },
    {
        match &self.email {
            None => Ok(None),
            Some(n) => match utf8_string(n.clone()) {
                Some(t) => Ok(Some(t)),
                None => Err(SwhidError::InvalidFormat),
            },
        }
    }

    /// A fixed anonymous person.
    pub fn anonymize(&self) -> (r: Person)
        ensures
            r.fullname@ == encode_utf8("Anonymous <anonymous@example.com>"@),
            r.name matches Some(n) && n@ == encode_utf8("Anonymous"@),
            r.email matches Some(e) && e@ == encode_utf8("anonymous@example.com"@),
    {
        Person {
            fullname: ("Anonymous <anonymous@example.com>").as_bytes_vec(),
            name: Some(("Anonymous").as_bytes_vec()),
            email: Some(("anonymous@example.com").as_bytes_vec()),
        }
    }

    /// The display form: `name <email>` when both parse as text, the name
    /// alone when only it does, and otherwise the full name decoded
    /// leniently.
    pub fn display_string(&self) -> (r: String)
        ensures
            r@ == match (self.name, self.email) {
                (Some(n), Some(e)) => if valid_utf8(n@) && valid_utf8(e@) {
                    decode_utf8(n@) + seq![' ', '<'] + decode_utf8(e@) + seq!['>']
                } else if valid_utf8(n@) {
                    decode_utf8(n@)
                } else {
                    lossy_chars(self.fullname@)
                },
                (Some(n), None) => if valid_utf8(n@) {
                    decode_utf8(n@)
                } else {
                    lossy_chars(self.fullname@)
                },
                _ => lossy_chars(self.fullname@),
            },
    {
        match &self.name {
            Some(n) => match utf8_string(n.clone()) {
                Some(name_text) => {
                    match &self.email {
                        Some(e) => match utf8_string(e.clone()) {
                            Some(email_text) => {
                                let mut out = name_text;
                                out.append(" <");
                                out.append(email_text.as_str());
                                out.append(">");
                                proof {
                                    reveal_strlit(" <");
                                    reveal_strlit(">");
                                    assert((" <")@ =~= seq![' ', '<']);
                                    assert((">")@ =~= seq!['>']);
                                }
                                out
                            }
                            None => name_text,
                        },
                        None => name_text,
                    }
                }
                None => utf8_string_lossy(self.fullname.as_slice()),
            },
            None => utf8_string_lossy(self.fullname.as_slice()),
        }
    }
}

/// The bytes of the trimmed prefix `[0, end)` of a string, or `None` when
/// the trim leaves nothing.
fn trimmed_region_bytes(fullname: &str, chars: &Vec<char>, end: usize) -> (r: Option<Vec<u8>>)
    requires
        chars@ == fullname@,
        end <= chars@.len(),
    ensures
        ({
            let t = trim(fullname@.take(end as int));
            match r {
                Some(b) => t.len() > 0 && b@ == encode_utf8(t),
                None => t.len() == 0,
            }
        }),
{
    let ghost region = fullname@.take(end as int);
    let mut lo: usize = 0;
    while lo < end && is_space_char(chars[lo])
        invariant
            chars@ == fullname@,
            end <= chars@.len(),
            region == fullname@.take(end as int),
            lo <= end,
            forall|j: int| 0 <= j < lo ==> is_space(#[trigger] region[j]),
        decreases end - lo,
    {
        assert(region[lo as int] == chars@[lo as int]);
        lo = lo + 1;
    }
    let mut hi: usize = end;
    while hi > lo && is_space_char(chars[hi - 1])
        invariant
            chars@ == fullname@,
            end <= chars@.len(),
            region == fullname@.take(end as int),
            lo <= hi <= end,
            forall|j: int| hi <= j < end ==> is_space(#[trigger] region[j]),
        decreases hi,
    {
        assert(region[hi - 1] == chars@[hi - 1]);
        hi = hi - 1;
    }
    proof {
        if lo < end {
            assert(!is_space(region[lo as int]));
        }
        lemma_trim_start_bound(region, lo as int);
        let tail = region.skip(lo as int);
        if hi > lo {
            assert(!is_space(chars@[hi - 1]));
            assert(tail[hi - lo - 1] == region[hi - 1]);
        }
        assert(forall|j: int|
            hi - lo <= j < tail.len() ==> is_space(#[trigger] tail[j]) && tail[j] == region[j + lo]);
        lemma_trim_end_bound(tail, hi - lo);
        assert(trim(region) == tail.take(hi - lo));
        assert(tail.take(hi - lo) =~= fullname@.subrange(lo as int, hi as int));
    }
    if lo >= hi {
        assert(trim(region).len() == 0);
        None
    } else {
        let b = fullname.substring_char(lo, hi).as_bytes_vec();
        assert(b@ == encode_utf8(trim(region)));
        Some(b)
    }
}

} // verus!
