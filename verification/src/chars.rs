//! Byte classes of RFC 3501 / RFC 9051 Section 9, case-insensitive
//! keyword matching, and scanning of runs of bytes of one class.

use vstd::prelude::*;

verus! {

/// `SP`
pub const SP: u8 = 32;
/// `CR`
pub const CR: u8 = 13;
/// `LF`
pub const LF: u8 = 10;
/// `DQUOTE`
pub const DQUOTE: u8 = 34;
/// `(`
pub const LPAREN: u8 = 40;
/// `)`
pub const RPAREN: u8 = 41;
/// `\`
pub const BACKSLASH: u8 = 92;

/// ASCII lower case of a byte; other bytes are left alone.
#[verifier::allow_in_spec]
pub fn to_lower(b: u8) -> u8
    returns
        (if 65 <= b <= 90 { (b + 32) as u8 } else { b }),
{
    if 65 <= b && b <= 90 {
        b + 32
    } else {
        b
    }
}

/// `ALPHA`
#[verifier::allow_in_spec]
pub fn is_alpha(b: u8) -> bool
    returns
        (65 <= b <= 90 || 97 <= b <= 122),
{
    (65 <= b && b <= 90) || (97 <= b && b <= 122)
}

/// `DIGIT`
#[verifier::allow_in_spec]
pub fn is_digit(b: u8) -> bool
    returns
        48 <= b <= 57,
{
    48 <= b && b <= 57
}

/// `CHAR = %x01-7F`
#[verifier::allow_in_spec]
pub fn is_char(b: u8) -> bool
    returns
        1 <= b <= 127,
{
    1 <= b && b <= 127
}

/// `CTL = %x00-1F / %x7F`
#[verifier::allow_in_spec]
pub fn is_ctl(b: u8) -> bool
    returns
        b <= 31 || b == 127,
{
    b <= 31 || b == 127
}

/// `list-wildcards = "%" / "*"`
#[verifier::allow_in_spec]
pub fn is_list_wildcard(b: u8) -> bool
    returns
        b == 37 || b == 42,
{
    b == 37 || b == 42
}

/// `quoted-specials = DQUOTE / "\"`
#[verifier::allow_in_spec]
pub fn is_quoted_special(b: u8) -> bool
    returns
        b == 34 || b == 92,
{
    b == 34 || b == 92
}

/// `resp-specials = "]"`
#[verifier::allow_in_spec]
pub fn is_resp_special(b: u8) -> bool
    returns
        b == 93,
{
    b == 93
}

/// `atom-specials = "(" / ")" / "{" / SP / CTL / list-wildcards /
/// quoted-specials / resp-specials`
#[verifier::allow_in_spec]
pub fn is_atom_special(b: u8) -> bool
    returns
        b == 40 || b == 41 || b == 123 || b == 32 || is_ctl(b) || is_list_wildcard(b)
            || is_quoted_special(b) || is_resp_special(b),
{
    b == 40 || b == 41 || b == 123 || b == 32 || is_ctl(b) || is_list_wildcard(b)
        || is_quoted_special(b) || is_resp_special(b)
}

/// `ATOM-CHAR = <any CHAR except atom-specials>`
#[verifier::allow_in_spec]
pub fn is_atom_char(b: u8) -> bool
    returns
        is_char(b) && !is_atom_special(b),
{
    is_char(b) && !is_atom_special(b)
}

/// `ASTRING-CHAR = ATOM-CHAR / resp-specials`
#[verifier::allow_in_spec]
pub fn is_astring_char(b: u8) -> bool
    returns
        is_atom_char(b) || is_resp_special(b),
{
    is_atom_char(b) || is_resp_special(b)
}

/// `list-char = ATOM-CHAR / list-wildcards / resp-specials`
#[verifier::allow_in_spec]
pub fn is_list_char(b: u8) -> bool
    returns
        is_atom_char(b) || is_list_wildcard(b) || is_resp_special(b),
{
    is_atom_char(b) || is_list_wildcard(b) || is_resp_special(b)
}

/// `TEXT-CHAR = <any CHAR except CR and LF>`
#[verifier::allow_in_spec]
pub fn is_text_char(b: u8) -> bool
    returns
        is_char(b) && b != 13 && b != 10,
{
    is_char(b) && b != 13 && b != 10
}

/// `CHAR8 = %x01-ff`
#[verifier::allow_in_spec]
pub fn is_char8(b: u8) -> bool
    returns
        b != 0,
{
    b != 0
}

/// A byte of a tag: `<any ASTRING-CHAR except "+">`.
#[verifier::allow_in_spec]
pub fn is_tag_char(b: u8) -> bool
    returns
        is_astring_char(b) && b != 43,
{
    is_astring_char(b) && b != 43
}

/// A byte of an object identifier: `ALPHA / DIGIT / "_" / "-"`.
#[verifier::allow_in_spec]
pub fn is_objectid_char(b: u8) -> bool
    returns
        is_alpha(b) || is_digit(b) || b == 95 || b == 45,
{
    is_alpha(b) || is_digit(b) || b == 95 || b == 45
}

/// A byte of a URLAUTH mechanism name: `ALPHA / DIGIT / "-" / "."`.
#[verifier::allow_in_spec]
pub fn is_mechanism_char(b: u8) -> bool
    returns
        is_alpha(b) || is_digit(b) || b == 45 || b == 46,
{
    is_alpha(b) || is_digit(b) || b == 45 || b == 46
}

/// A byte of base64 data, padding aside: `ALPHA / DIGIT / "+" / "/"`.
#[verifier::allow_in_spec]
pub fn is_base64_char(b: u8) -> bool
    returns
        is_alpha(b) || is_digit(b) || b == 43 || b == 47,
{
    is_alpha(b) || is_digit(b) || b == 43 || b == 47
}

/// The classes of bytes that tokens are made of.
#[derive(Clone, Copy, PartialEq, Eq, Debug)]
pub enum ByteClass {
    Atom,
    AString,
    List,
    Tag,
    Digit,
    ObjectId,
    Mechanism,
    Base64,
    /// `TEXT-CHAR` other than the quoted specials: what a quoted string
    /// holds unescaped.
    QuotedText,
    /// `TEXT-CHAR`, as in the human-readable text of a response.
    Text,
    /// `CHAR8`, what a literal holds.
    Char8,
}

impl ByteClass {
    pub open spec fn spec_has(self, b: u8) -> bool {
        match self {
            ByteClass::Atom => is_atom_char(b),
            ByteClass::AString => is_astring_char(b),
            ByteClass::List => is_list_char(b),
            ByteClass::Tag => is_tag_char(b),
            ByteClass::Digit => is_digit(b),
            ByteClass::ObjectId => is_objectid_char(b),
            ByteClass::Mechanism => is_mechanism_char(b),
            ByteClass::Base64 => is_base64_char(b),
            ByteClass::QuotedText => is_text_char(b) && !is_quoted_special(b),
            ByteClass::Text => is_text_char(b),
            ByteClass::Char8 => is_char8(b),
        }
    }

    /// Whether the byte belongs to the class.
    #[verifier::when_used_as_spec(spec_has)]
    pub fn has(self, b: u8) -> (r: bool)
        ensures
            r == self.spec_has(b),
    {
        match self {
            ByteClass::Atom => is_atom_char(b),
            ByteClass::AString => is_astring_char(b),
            ByteClass::List => is_list_char(b),
            ByteClass::Tag => is_tag_char(b),
            ByteClass::Digit => is_digit(b),
            ByteClass::ObjectId => is_objectid_char(b),
            ByteClass::Mechanism => is_mechanism_char(b),
            ByteClass::Base64 => is_base64_char(b),
            ByteClass::QuotedText => is_text_char(b) && !is_quoted_special(b),
            ByteClass::Text => is_text_char(b),
            ByteClass::Char8 => is_char8(b),
        }
    }
}

/// Every byte of `s` belongs to the class.
pub open spec fn all_in(s: Seq<u8>, c: ByteClass) -> bool {
    forall|k: int| 0 <= k < s.len() ==> c.spec_has(#[trigger] s[k])
}

/// The end of the longest run of bytes of class `c` that starts at `i`.
pub open spec fn scan_end(s: Seq<u8>, i: int, c: ByteClass) -> int
    decreases s.len() - i,
{
    if 0 <= i < s.len() && c.spec_has(s[i]) {
        scan_end(s, i + 1, c)
    } else {
        i
    }
}

/// What `scan_end` is: the run is of the class, and what follows it is
/// not, or is the end of the input.
pub proof fn lemma_scan_end(s: Seq<u8>, i: int, c: ByteClass)
    requires
        0 <= i <= s.len(),
    ensures
        i <= scan_end(s, i, c) <= s.len(),
        all_in(s.subrange(i, scan_end(s, i, c)), c),
        scan_end(s, i, c) < s.len() ==> !c.spec_has(s[scan_end(s, i, c)]),
    decreases s.len() - i,
{
    if i < s.len() && c.spec_has(s[i]) {
        lemma_scan_end(s, i + 1, c);
        let e = scan_end(s, i, c);
        assert forall|k: int| 0 <= k < e - i implies c.spec_has(#[trigger] s.subrange(i, e)[k]) by {
            if k > 0 {
                assert(s.subrange(i, e)[k] == s.subrange(i + 1, e)[k - 1]);
            }
        }
    }
}

/// A run that is all of the class and ends where the class ends is the
/// longest one.
pub proof fn lemma_scan_end_of_run(s: Seq<u8>, i: int, e: int, c: ByteClass)
    requires
        0 <= i <= e <= s.len(),
        forall|k: int| i <= k < e ==> c.spec_has(#[trigger] s[k]),
        e < s.len() ==> !c.spec_has(s[e]),
    ensures
        scan_end(s, i, c) == e,
    decreases e - i,
{
    if i < e {
        lemma_scan_end_of_run(s, i + 1, e, c);
    }
}

/// The end of the longest run of bytes of class `c` from `i`.
pub fn scan(s: &[u8], i: usize, c: ByteClass) -> (r: usize)
    requires
        i <= s@.len(),
    ensures
        r == scan_end(s@, i as int, c),
        i <= r <= s@.len(),
{
    let mut k = i;
    while k < s.len() && c.has(s[k])
        invariant
            i <= k <= s@.len(),
            scan_end(s@, i as int, c) == scan_end(s@, k as int, c),
        decreases s@.len() - k,
    {
        k = k + 1;
    }
    proof {
        lemma_scan_end(s@, k as int, c);
    }
    k
}

/// Where the first byte of `s` outside the class is, if there is one.
pub fn first_outside(s: &[u8], c: ByteClass) -> (r: Option<usize>)
    ensures
        r is None <==> all_in(s@, c),
        r matches Some(k) ==> k < s@.len() && !c.spec_has(s@[k as int]) && all_in(s@.subrange(0, k as int), c),
{
    let e = scan(s, 0, c);
    proof {
        lemma_scan_end(s@, 0, c);
        assert(s@.subrange(0, s@.len() as int) =~= s@);
    }
    if e < s.len() {
        Some(e)
    } else {
        None
    }
}

/// A token: a non-empty run of class `c` that the input goes on after.
/// A run that reaches the end of the input is not a token yet, because
/// more of it may follow.
pub open spec fn spec_token(s: Seq<u8>, i: int, c: ByteClass) -> Option<int> {
    let e = scan_end(s, i, c);
    if i < e && e < s.len() {
        Some(e)
    } else {
        None
    }
}

/// Reads a token of class `c` at `i`, giving where it ends.
pub fn token(s: &[u8], i: usize, c: ByteClass) -> (r: Option<usize>)
    requires
        i <= s@.len(),
    ensures
        r matches Some(e) ==> spec_token(s@, i as int, c) == Some(e as int) && i < e < s@.len(),
        r is None ==> spec_token(s@, i as int, c) is None,
{
    let e = scan(s, i, c);
    if i < e && e < s.len() {
        Some(e)
    } else {
        None
    }
}

/// `take_while_m_n`: at least `m` and at most `n` bytes of class `c`.
/// Where the run reaches the end of the input and is shorter than `n`,
/// more may follow, so nothing is taken yet.
pub open spec fn spec_take_m_n(s: Seq<u8>, i: int, c: ByteClass, m: int, n: int) -> Option<int> {
    let e = scan_end(s, i, c);
    if e < s.len() {
        if e - i >= m {
            Some(if e - i <= n { e } else { i + n })
        } else {
            None
        }
    } else if s.len() - i >= n {
        Some(i + n)
    } else {
        None
    }
}

/// Takes between `m` and `n` bytes of class `c` at `i`.
pub fn take_m_n(s: &[u8], i: usize, c: ByteClass, m: usize, n: usize) -> (r: Option<usize>)
    requires
        i <= s@.len(),
        m <= n,
    ensures
        r matches Some(e) ==> spec_take_m_n(s@, i as int, c, m as int, n as int) == Some(e as int) && i + m <= e <= i + n && e <= s@.len() && all_in(s@.subrange(i as int, e as int), c),
        r is None ==> spec_take_m_n(s@, i as int, c, m as int, n as int) is None,
{
    let e = scan(s, i, c);
    proof {
        lemma_scan_end(s@, i as int, c);
    }
    let k = if e < s.len() {
        if e - i >= m {
            if e - i <= n { e } else { i + n }
        } else {
            return None;
        }
    } else if s.len() - i >= n {
        i + n
    } else {
        return None;
    };
    proof {
        assert forall|q: int| 0 <= q < k - i implies c.spec_has(#[trigger] s@.subrange(i as int, k as int)[q]) by {
            assert(s@.subrange(i as int, k as int)[q] == s@.subrange(i as int, e as int)[q]);
        }
    }
    Some(k)
}

/// The keyword `kw`, in any case, at `i`.
pub open spec fn spec_keyword(s: Seq<u8>, i: int, kw: Seq<u8>) -> bool {
    &&& 0 <= i
    &&& i + kw.len() <= s.len()
    &&& forall|j: int| 0 <= j < kw.len() ==> to_lower(#[trigger] s[i + j]) == to_lower(kw[j])
}

/// Whether the keyword `kw` stands at `i`, in any case.
pub fn keyword(s: &[u8], i: usize, kw: &[u8]) -> (r: bool)
    requires
        i <= s@.len(),
    ensures
        r == spec_keyword(s@, i as int, kw@),
        r ==> i + kw@.len() <= s.len(),
{
    if kw.len() > s.len() - i {
        return false;
    }
    let mut j: usize = 0;
    while j < kw.len()
        invariant
            i + kw@.len() <= s@.len(),
            s@.len() == s.len(),
            j <= kw@.len(),
            forall|k: int| 0 <= k < j ==> to_lower(#[trigger] s@[i + k]) == to_lower(kw@[k]),
        decreases kw@.len() - j,
    {
        if to_lower(s[i + j]) != to_lower(kw[j]) {
            return false;
        }
        j = j + 1;
    }
    true
}

/// The byte `b` at `i`.
pub open spec fn spec_byte(s: Seq<u8>, i: int, b: u8) -> bool {
    0 <= i < s.len() && s[i] == b
}

/// Whether the byte `b` stands at `i`.
pub fn byte(s: &[u8], i: usize, b: u8) -> (r: bool)
    requires
        i <= s@.len(),
    ensures
        r == spec_byte(s@, i as int, b),
        r ==> i < s.len(),
{
    i < s.len() && s[i] == b
}

/// Appends bytes to an output.
pub fn put(out: &mut Vec<u8>, bytes: &[u8])
    ensures
        final(out)@ == old(out)@ + bytes@,
{
    let mut k: usize = 0;
    let ghost start = old(out)@;
    while k < bytes.len()
        invariant
            k <= bytes@.len(),
            out@ == start + bytes@.subrange(0, k as int),
        decreases bytes@.len() - k,
    {
        out.push(bytes[k]);
        k = k + 1;
        assert(out@ =~= start + bytes@.subrange(0, k as int));
    }
    assert(bytes@.subrange(0, bytes@.len() as int) =~= bytes@);
}

/// Copies a slice into a new vector.
pub fn copy_of(bytes: &[u8]) -> (r: Vec<u8>)
    ensures
        r@ == bytes@,
{
    let mut r = Vec::new();
    put(&mut r, bytes);
    assert(r@ =~= bytes@);
    r
}

} // verus!

verus! {

/// A part of what stands at `i` stands at its own offset from `i`.
pub proof fn lemma_part(s: Seq<u8>, i: int, w: Seq<u8>, k: int, n: int)
    requires
        0 <= i,
        0 <= k,
        0 <= n,
        k + n <= w.len(),
        i + w.len() <= s.len(),
        s.subrange(i, i + w.len()) == w,
    ensures
        s.subrange(i + k, i + k + n) == w.subrange(k, k + n),
{
    assert forall|q: int| 0 <= q < n implies #[trigger] s.subrange(i + k, i + k + n)[q] == w.subrange(k, k + n)[q] by {
        assert(s[i + k + q] == s.subrange(i, i + w.len())[k + q]);
    }
    assert(s.subrange(i + k, i + k + n) =~= w.subrange(k, k + n));
}

/// The bytes of a keyword, in its own case, are the keyword.
pub proof fn lemma_keyword_at(s: Seq<u8>, i: int, kw: Seq<u8>)
    requires
        0 <= i,
        i + kw.len() <= s.len(),
        s.subrange(i, i + kw.len()) == kw,
    ensures
        spec_keyword(s, i, kw),
{
    assert forall|j: int| 0 <= j < kw.len() implies to_lower(#[trigger] s[i + j]) == to_lower(kw[j]) by {
        assert(s[i + j] == s.subrange(i, i + kw.len())[j]);
    }
}

/// A keyword does not stand where a byte differs from its byte in every
/// case.
pub proof fn lemma_not_keyword(s: Seq<u8>, i: int, kw: Seq<u8>, j: int)
    requires
        0 <= j < kw.len(),
        i + j < s.len(),
        to_lower(s[i + j]) != to_lower(kw[j]),
    ensures
        !spec_keyword(s, i, kw),
{
}

} // verus!
