//! The string types of IMAP: atoms, quoted strings, literals, `astring`
//! and `nstring`, tags, and non-empty vectors; how each is read and
//! written.

use vstd::prelude::*;
use vstd::string::StringSliceAdditionalSpecFns;

use crate::chars::{
    all_in, byte, first_outside, is_quoted_special, is_text_char, keyword, put, scan, spec_byte,
    spec_keyword, spec_token, token, ByteClass, BACKSLASH, CR, DQUOTE, LF,
};
use crate::num::{decimal, read_number, spec_number, write_number};
use crate::rule::{read_view, Rule};

verus! {

/// Why a value is not what a type holds.
#[derive(Clone, Copy, Debug, PartialEq, Eq, Hash)]
pub enum ValidationError {
    /// The value is empty and must not be.
    Empty,
    /// The value is not valid as a whole (too long, say).
    Invalid,
    /// The byte at this index may not stand in the value.
    InvalidByteAt { byte: u8, at: usize },
}

/// Whether `b` is all of class `c`, and else which byte is not.
pub open spec fn spec_check_bytes(b: Seq<u8>, c: ByteClass, empty_ok: bool) -> Result<(), ValidationError> {
    if b.len() == 0 && !empty_ok {
        Err(ValidationError::Empty)
    } else if all_in(b, c) {
        Ok(())
    } else {
        let at = crate::chars::scan_end(b, 0, c);
        Err(ValidationError::InvalidByteAt { byte: b[at], at: at as usize })
    }
}

/// Checks that `b` is all of class `c` (and not empty unless `empty_ok`).
pub fn check_bytes(b: &[u8], c: ByteClass, empty_ok: bool) -> (r: Result<(), ValidationError>)
    ensures
        r == spec_check_bytes(b@, c, empty_ok),
{
    if b.len() == 0 && !empty_ok {
        return Err(ValidationError::Empty);
    }
    match first_outside(b, c) {
        None => Ok(()),
        Some(at) => {
            proof {
                assert forall|k: int| 0 <= k < at implies c.spec_has(#[trigger] b@[k]) by {
                    assert(b@.subrange(0, at as int)[k] == b@[k]);
                }
                crate::chars::lemma_scan_end_of_run(b@, 0, at as int, c);
            }
            Err(ValidationError::InvalidByteAt { byte: b[at], at })
        },
    }
}

/// `atom = 1*ATOM-CHAR`
#[derive(Debug, PartialEq, Eq, Hash)]
pub struct Atom(Vec<u8>);

/// `1*ASTRING-CHAR`: the atom-like spelling of an `astring`, which may
/// also hold `]`.
#[derive(Debug, PartialEq, Eq, Hash)]
pub struct AtomExt(Vec<u8>);

/// The content of a quoted string, unescaped: `TEXT-CHAR`s.
#[derive(Debug, PartialEq, Eq, Hash)]
pub struct Quoted(Vec<u8>);

/// How a literal is sent: with the server's go-ahead (`{n}`), or
/// without waiting for it (`{n+}`, RFC 7888).
#[derive(Clone, Copy, Debug, PartialEq, Eq, Hash, Structural)]
pub enum LiteralMode {
    Sync,
    NonSync,
}

/// A literal: any bytes but NUL, sent with their length.
#[derive(Debug, PartialEq, Eq, Hash)]
pub struct Literal {
    data: Vec<u8>,
    mode: LiteralMode,
}

/// `string = quoted / literal`
#[derive(Debug, PartialEq, Eq, Hash)]
pub enum IString {
    Literal(Literal),
    Quoted(Quoted),
}

/// `astring = 1*ASTRING-CHAR / string`
#[derive(Debug, PartialEq, Eq, Hash)]
pub enum AString {
    Atom(AtomExt),
    String(IString),
}

/// `nstring = string / nil`
#[derive(Debug, PartialEq, Eq, Hash)]
pub struct NString(pub Option<IString>);

/// A command tag: `1*<any ASTRING-CHAR except "+">`.
#[derive(Debug, PartialEq, Eq, Hash)]
pub struct Tag(Vec<u8>);

/// The model of a string: what kind it is and its bytes.
#[derive(Clone, Copy, Debug, PartialEq, Eq, Hash)]
pub enum StrKind {
    Atom,
    Quoted,
    Literal(LiteralMode),
}

/// The model of an `IString` or `AString`.
pub struct StrV {
    pub kind: StrKind,
    pub bytes: Seq<u8>,
}

/// Which bytes a string of each kind may hold.
pub open spec fn wf_str(v: StrV) -> bool {
    match v.kind {
        StrKind::Atom => v.bytes.len() > 0 && all_in(v.bytes, ByteClass::AString),
        StrKind::Quoted => all_in(v.bytes, ByteClass::Text),
        StrKind::Literal(_) => all_in(v.bytes, ByteClass::Char8),
    }
}

impl Atom {
    #[verifier::type_invariant]
    spec fn inv(self) -> bool {
        self.0@.len() > 0 && all_in(self.0@, ByteClass::Atom)
    }

    /// Whether bytes form an atom.
    pub fn validate(b: &[u8]) -> (r: Result<(), ValidationError>)
        ensures
            r == spec_check_bytes(b@, ByteClass::Atom, false),
    {
        check_bytes(b, ByteClass::Atom, false)
    }

    /// The atom of bytes that are known to form one.
    pub fn unvalidated(b: Vec<u8>) -> (r: Atom)
        requires
            spec_check_bytes(b@, ByteClass::Atom, false) is Ok,
        ensures
            r.deep_view() == b@,
    {
        Atom(b)
    }

    /// The atom made of these bytes.
    pub fn try_from_bytes(b: &[u8]) -> (r: Result<Atom, ValidationError>)
        ensures
            r matches Ok(a) ==> a.deep_view() == b@,
            r is Ok <==> spec_check_bytes(b@, ByteClass::Atom, false) is Ok,
            r matches Err(e) ==> spec_check_bytes(b@, ByteClass::Atom, false) == Err::<(), ValidationError>(e),
    {
        match check_bytes(b, ByteClass::Atom, false) {
            Ok(()) => Ok(Atom(crate::chars::copy_of(b))),
            Err(e) => Err(e),
        }
    }

    /// The atom's bytes.
    pub fn as_bytes(&self) -> (r: &[u8])
        ensures
            r@ == self.deep_view(),
            r@.len() > 0,
            all_in(r@, ByteClass::Atom),
    {
        proof {
            use_type_invariant(self);
        }
        self.0.as_slice()
    }
}

impl DeepView for Atom {
    type V = Seq<u8>;

    closed spec fn deep_view(&self) -> Seq<u8> {
        self.0@
    }
}

impl AtomExt {
    #[verifier::type_invariant]
    spec fn inv(self) -> bool {
        self.0@.len() > 0 && all_in(self.0@, ByteClass::AString)
    }

    /// The bytes.
    pub fn as_bytes(&self) -> (r: &[u8])
        ensures
            r@ == self.deep_view(),
            r@.len() > 0,
            all_in(r@, ByteClass::AString),
    {
        proof {
            use_type_invariant(self);
        }
        self.0.as_slice()
    }
}

impl DeepView for AtomExt {
    type V = Seq<u8>;

    closed spec fn deep_view(&self) -> Seq<u8> {
        self.0@
    }
}

impl Quoted {
    #[verifier::type_invariant]
    spec fn inv(self) -> bool {
        all_in(self.0@, ByteClass::Text)
    }

    /// The content.
    pub fn as_bytes(&self) -> (r: &[u8])
        ensures
            r@ == self.deep_view(),
            all_in(r@, ByteClass::Text),
    {
        proof {
            use_type_invariant(self);
        }
        self.0.as_slice()
    }
}

impl DeepView for Quoted {
    type V = Seq<u8>;

    closed spec fn deep_view(&self) -> Seq<u8> {
        self.0@
    }
}

impl Literal {
    #[verifier::type_invariant]
    spec fn inv(self) -> bool {
        all_in(self.data@, ByteClass::Char8)
    }

    /// The bytes the literal carries.
    pub closed spec fn spec_data(self) -> Seq<u8> {
        self.data@
    }

    /// How it is sent.
    pub closed spec fn spec_mode(self) -> LiteralMode {
        self.mode
    }

    /// The literal of these bytes, sent with the server's go-ahead.
    pub fn try_from_bytes(b: &[u8]) -> (r: Result<Literal, ValidationError>)
        ensures
            r matches Ok(l) ==> l.spec_data() == b@ && l.spec_mode() == LiteralMode::Sync,
            r is Ok <==> all_in(b@, ByteClass::Char8),
    {
        match check_bytes(b, ByteClass::Char8, true) {
            Ok(()) => Ok(Literal { data: crate::chars::copy_of(b), mode: LiteralMode::Sync }),
            Err(e) => Err(e),
        }
    }

    /// The bytes.
    pub fn data(&self) -> (r: &[u8])
        ensures
            r@ == self.spec_data(),
            all_in(r@, ByteClass::Char8),
    {
        proof {
            use_type_invariant(self);
        }
        self.data.as_slice()
    }

    /// How it is sent.
    pub fn mode(&self) -> (r: LiteralMode)
        ensures
            r == self.spec_mode(),
    {
        self.mode
    }
}

impl DeepView for IString {
    type V = StrV;

    open spec fn deep_view(&self) -> StrV {
        match self {
            IString::Literal(l) => StrV { kind: StrKind::Literal(l.spec_mode()), bytes: l.spec_data() },
            IString::Quoted(q) => StrV { kind: StrKind::Quoted, bytes: q.deep_view() },
        }
    }
}

impl DeepView for AString {
    type V = StrV;

    open spec fn deep_view(&self) -> StrV {
        match self {
            AString::Atom(a) => StrV { kind: StrKind::Atom, bytes: a.deep_view() },
            AString::String(s) => s.deep_view(),
        }
    }
}

impl DeepView for NString {
    type V = Option<StrV>;

    open spec fn deep_view(&self) -> Option<StrV> {
        match self.0 {
            Some(s) => Some(s.deep_view()),
            None => None,
        }
    }
}

impl Tag {
    #[verifier::type_invariant]
    spec fn inv(self) -> bool {
        self.0@.len() > 0 && all_in(self.0@, ByteClass::Tag)
    }

    /// The tag of these bytes.
    pub fn try_from_bytes(b: &[u8]) -> (r: Result<Tag, ValidationError>)
        ensures
            r matches Ok(t) ==> t.deep_view() == b@,
            r is Ok <==> spec_check_bytes(b@, ByteClass::Tag, false) is Ok,
    {
        match check_bytes(b, ByteClass::Tag, false) {
            Ok(()) => Ok(Tag(crate::chars::copy_of(b))),
            Err(e) => Err(e),
        }
    }

    /// The tag's bytes.
    pub fn as_bytes(&self) -> (r: &[u8])
        ensures
            r@ == self.deep_view(),
            r@.len() > 0,
            all_in(r@, ByteClass::Tag),
    {
        proof {
            use_type_invariant(self);
        }
        self.0.as_slice()
    }
}

impl DeepView for Tag {
    type V = Seq<u8>;

    closed spec fn deep_view(&self) -> Seq<u8> {
        self.0@
    }
}

impl Clone for Atom {
    fn clone(&self) -> (r: Self)
        ensures
            r.deep_view() == self.deep_view(),
    {
        proof {
            use_type_invariant(self);
        }
        Atom(crate::chars::copy_of(self.0.as_slice()))
    }
}

impl Clone for AtomExt {
    fn clone(&self) -> (r: Self)
        ensures
            r.deep_view() == self.deep_view(),
    {
        proof {
            use_type_invariant(self);
        }
        AtomExt(crate::chars::copy_of(self.0.as_slice()))
    }
}

impl Clone for Quoted {
    fn clone(&self) -> (r: Self)
        ensures
            r.deep_view() == self.deep_view(),
    {
        proof {
            use_type_invariant(self);
        }
        Quoted(crate::chars::copy_of(self.0.as_slice()))
    }
}

impl Clone for Tag {
    fn clone(&self) -> (r: Self)
        ensures
            r.deep_view() == self.deep_view(),
    {
        proof {
            use_type_invariant(self);
        }
        Tag(crate::chars::copy_of(self.0.as_slice()))
    }
}

impl Clone for Literal {
    fn clone(&self) -> (r: Self)
        ensures
            r.spec_data() == self.spec_data(),
            r.spec_mode() == self.spec_mode(),
    {
        proof {
            use_type_invariant(self);
        }
        Literal { data: crate::chars::copy_of(self.data.as_slice()), mode: self.mode }
    }
}

impl Clone for IString {
    fn clone(&self) -> (r: Self)
        ensures
            r.deep_view() == self.deep_view(),
    {
        match self {
            IString::Literal(l) => IString::Literal(l.clone()),
            IString::Quoted(q) => IString::Quoted(q.clone()),
        }
    }
}

impl Clone for AString {
    fn clone(&self) -> (r: Self)
        ensures
            r.deep_view() == self.deep_view(),
    {
        match self {
            AString::Atom(a) => AString::Atom(a.clone()),
            AString::String(s) => AString::String(s.clone()),
        }
    }
}

impl Clone for NString {
    fn clone(&self) -> (r: Self)
        ensures
            r.deep_view() == self.deep_view(),
    {
        match &self.0 {
            Some(s) => NString(Some(s.clone())),
            None => NString(None),
        }
    }
}

// ---------------------------------------------------------------------
// Conversions.

/// The `string` that a value is written as: a quoted string where it
/// may be, a literal otherwise.
pub open spec fn spec_istring_of(b: Seq<u8>) -> Result<StrV, ValidationError> {
    if all_in(b, ByteClass::Text) {
        Ok(StrV { kind: StrKind::Quoted, bytes: b })
    } else if all_in(b, ByteClass::Char8) {
        Ok(StrV { kind: StrKind::Literal(LiteralMode::Sync), bytes: b })
    } else {
        Err(spec_check_bytes(b, ByteClass::Char8, true)->Err_0)
    }
}

impl IString {
    /// The `string` of these bytes: quoted where every byte is text, a
    /// literal where no byte is NUL.
    pub fn try_from_bytes(b: &[u8]) -> (r: Result<IString, ValidationError>)
        ensures
            r matches Ok(a) ==> spec_istring_of(b@) == Ok::<StrV, ValidationError>(a.deep_view()),
            r matches Err(e) ==> spec_istring_of(b@) == Err::<StrV, ValidationError>(e),
    {
        if let Ok(()) = check_bytes(b, ByteClass::Text, true) {
            return Ok(IString::Quoted(Quoted(crate::chars::copy_of(b))));
        }
        match check_bytes(b, ByteClass::Char8, true) {
            Ok(()) => Ok(IString::Literal(Literal { data: crate::chars::copy_of(b), mode: LiteralMode::Sync })),
            Err(e) => Err(e),
        }
    }

    /// The bytes the string stands for.
    pub fn as_bytes(&self) -> (r: &[u8])
        ensures
            r@ == self.deep_view().bytes,
    {
        match self {
            IString::Quoted(q) => q.as_bytes(),
            IString::Literal(l) => l.data(),
        }
    }
}

/// The `astring` that a value is written as: an atom where it may be,
/// a quoted string where it may be, a literal otherwise.
pub open spec fn spec_astring_of(b: Seq<u8>) -> Result<StrV, ValidationError> {
    if b.len() > 0 && all_in(b, ByteClass::AString) {
        Ok(StrV { kind: StrKind::Atom, bytes: b })
    } else if all_in(b, ByteClass::Text) {
        Ok(StrV { kind: StrKind::Quoted, bytes: b })
    } else if all_in(b, ByteClass::Char8) {
        Ok(StrV { kind: StrKind::Literal(LiteralMode::Sync), bytes: b })
    } else {
        Err(spec_check_bytes(b, ByteClass::Char8, true)->Err_0)
    }
}

impl AString {
    /// The `astring` of these bytes: an atom where every byte may stand
    /// in one, else a quoted string where every byte is text, else a
    /// literal where no byte is NUL.
    pub fn try_from_bytes(b: &[u8]) -> (r: Result<AString, ValidationError>)
        ensures
            r matches Ok(a) ==> spec_astring_of(b@) == Ok::<StrV, ValidationError>(a.deep_view()),
            r matches Err(e) ==> spec_astring_of(b@) == Err::<StrV, ValidationError>(e),
    {
        if b.len() > 0 {
            if let Ok(()) = check_bytes(b, ByteClass::AString, false) {
                return Ok(AString::Atom(AtomExt(crate::chars::copy_of(b))));
            }
        }
        if let Ok(()) = check_bytes(b, ByteClass::Text, true) {
            return Ok(AString::String(IString::Quoted(Quoted(crate::chars::copy_of(b)))));
        }
        match check_bytes(b, ByteClass::Char8, true) {
            Ok(()) => Ok(AString::String(IString::Literal(Literal { data: crate::chars::copy_of(b), mode: LiteralMode::Sync }))),
            Err(e) => Err(e),
        }
    }

    /// The `astring` of a text.
    pub fn try_from_str(s: &str) -> (r: Result<AString, ValidationError>)
        ensures
            r matches Ok(a) ==> spec_astring_of(s.spec_bytes()) == Ok::<StrV, ValidationError>(a.deep_view()),
            r matches Err(e) ==> spec_astring_of(s.spec_bytes()) == Err::<StrV, ValidationError>(e),
    {
        AString::try_from_bytes(s.as_bytes())
    }

    /// The bytes the string stands for.
    pub fn as_bytes(&self) -> (r: &[u8])
        ensures
            r@ == self.deep_view().bytes,
    {
        match self {
            AString::Atom(a) => a.as_bytes(),
            AString::String(IString::Quoted(q)) => q.as_bytes(),
            AString::String(IString::Literal(l)) => l.data(),
        }
    }
}

// ---------------------------------------------------------------------
// Reading.

/// `atom`
pub open spec fn spec_atom(s: Seq<u8>, i: int) -> Option<(Seq<u8>, int)> {
    match spec_token(s, i, ByteClass::Atom) {
        Some(e) => Some((s.subrange(i, e), e)),
        None => None,
    }
}

/// Reads an `atom` at `i`.
pub fn read_atom(s: &[u8], i: usize) -> (r: Option<(Atom, usize)>)
    requires
        i <= s@.len(),
    ensures
        read_view(r) == spec_atom(s@, i as int),
        r matches Some((_, j)) ==> i < j <= s@.len(),
{
    match token(s, i, ByteClass::Atom) {
        Some(e) => {
            proof {
                crate::chars::lemma_scan_end(s@, i as int, ByteClass::Atom);
            }
            let a = Atom(crate::chars::copy_of(&s[i..e]));
            Some((a, e))
        },
        None => None,
    }
}

/// The content of a quoted string from `i`, up to and past the closing
/// `DQUOTE`: `*QUOTED-CHAR DQUOTE`, escapes undone.
pub open spec fn spec_quoted_rest(s: Seq<u8>, i: int) -> Option<(Seq<u8>, int)>
    decreases s.len() - i,
{
    if !(0 <= i < s.len()) {
        None
    } else if s[i] == DQUOTE {
        Some((seq![], i + 1))
    } else if s[i] == BACKSLASH {
        if i + 1 < s.len() && is_quoted_special(s[i + 1]) {
            match spec_quoted_rest(s, i + 2) {
                Some((c, j)) => Some((seq![s[i + 1]] + c, j)),
                None => None,
            }
        } else {
            None
        }
    } else if is_text_char(s[i]) {
        match spec_quoted_rest(s, i + 1) {
            Some((c, j)) => Some((seq![s[i]] + c, j)),
            None => None,
        }
    } else {
        None
    }
}

proof fn lemma_quoted_rest(s: Seq<u8>, i: int)
    requires
        0 <= i <= s.len(),
    ensures
        spec_quoted_rest(s, i) matches Some((c, j)) ==> i < j <= s.len() && all_in(c, ByteClass::Text),
    decreases s.len() - i,
{
    if 0 <= i < s.len() && s[i] != DQUOTE {
        if s[i] == BACKSLASH {
            if i + 1 < s.len() && is_quoted_special(s[i + 1]) {
                lemma_quoted_rest(s, i + 2);
                if let Some((c, j)) = spec_quoted_rest(s, i + 2) {
                    let c2 = seq![s[i + 1]] + c;
                    assert(c2[0] == s[i + 1]);
                    assert(is_text_char(s[i + 1]));
                    assert forall|k: int| 0 <= k < c2.len() implies ByteClass::Text.spec_has(#[trigger] c2[k]) by {
                        if k > 0 {
                            assert(c2[k] == c[k - 1]);
                        }
                    }
                }
            }
        } else if is_text_char(s[i]) {
            lemma_quoted_rest(s, i + 1);
            if let Some((c, j)) = spec_quoted_rest(s, i + 1) {
                let c2 = seq![s[i]] + c;
                assert(c2[0] == s[i]);
                assert forall|k: int| 0 <= k < c2.len() implies ByteClass::Text.spec_has(#[trigger] c2[k]) by {
                    if k > 0 {
                        assert(c2[k] == c[k - 1]);
                    }
                }
            }
        }
    }
}

/// `quoted = DQUOTE *QUOTED-CHAR DQUOTE`
pub open spec fn spec_quoted(s: Seq<u8>, i: int) -> Option<(Seq<u8>, int)> {
    if spec_byte(s, i, DQUOTE) {
        spec_quoted_rest(s, i + 1)
    } else {
        None
    }
}

/// Reads a `quoted` at `i`.
pub fn read_quoted(s: &[u8], i: usize) -> (r: Option<(Quoted, usize)>)
    requires
        i <= s@.len(),
    ensures
        read_view(r) == spec_quoted(s@, i as int),
        r matches Some((_, j)) ==> i < j <= s@.len(),
{
    if !byte(s, i, DQUOTE) {
        return None;
    }
    let mut acc: Vec<u8> = Vec::new();
    let mut k = i + 1;
    proof {
        lemma_quoted_rest(s@, k as int);
    }
    loop
        invariant
            i < k <= s@.len(),
            spec_quoted(s@, i as int) == spec_quoted_rest(s@, i as int + 1),
            spec_quoted_rest(s@, i as int + 1) == match spec_quoted_rest(s@, k as int) {
                Some((c, j)) => Some((acc@ + c, j)),
                None => None::<(Seq<u8>, int)>,
            },
            all_in(acc@, ByteClass::Text),
        decreases s@.len() - k,
    {
        if k >= s.len() {
            return None;
        }
        let c = s[k];
        let ghost before = acc@;
        if c == DQUOTE {
            proof {
                assert(acc@ + seq![] =~= acc@);
            }
            return Some((Quoted(acc), k + 1));
        } else if c == BACKSLASH {
            if k + 1 < s.len() && is_quoted_special(s[k + 1]) {
                acc.push(s[k + 1]);
                proof {
                    assert forall|m: int| 0 <= m < acc@.len() implies ByteClass::Text.spec_has(#[trigger] acc@[m]) by {
                        if m < before.len() {
                            assert(acc@[m] == before[m]);
                        }
                    }
                    match spec_quoted_rest(s@, k + 2) {
                        Some((cc, j)) => {
                            assert(before + (seq![s@[k + 1]] + cc) =~= acc@ + cc);
                        },
                        None => {},
                    }
                }
                k = k + 2;
            } else {
                return None;
            }
        } else if is_text_char(c) {
            acc.push(c);
            proof {
                assert forall|m: int| 0 <= m < acc@.len() implies ByteClass::Text.spec_has(#[trigger] acc@[m]) by {
                    if m < before.len() {
                        assert(acc@[m] == before[m]);
                    }
                }
                match spec_quoted_rest(s@, k + 1) {
                    Some((cc, j)) => {
                        assert(before + (seq![c] + cc) =~= acc@ + cc);
                    },
                    None => {},
                }
            }
            k = k + 1;
        } else {
            return None;
        }
    }
}

/// `{`
pub const LBRACE: u8 = 123;
/// `}`
pub const RBRACE: u8 = 125;
/// `+`
pub const PLUS: u8 = 43;

/// The header of a literal, `"{" number ["+"] "}" CRLF`: the length,
/// the mode, and where the data begins.
pub open spec fn spec_literal_header(s: Seq<u8>, i: int) -> Option<(u32, LiteralMode, int)> {
    if spec_byte(s, i, LBRACE) {
        match spec_number(s, i + 1) {
            Some((n, j)) => {
                let (mode, k) = if spec_byte(s, j, PLUS) {
                    (LiteralMode::NonSync, j + 1)
                } else {
                    (LiteralMode::Sync, j)
                };
                if spec_byte(s, k, RBRACE) && spec_byte(s, k + 1, CR) && spec_byte(s, k + 2, LF) {
                    Some((n, mode, k + 3))
                } else {
                    None
                }
            },
            None => None,
        }
    } else {
        None
    }
}

/// `literal = "{" number ["+"] "}" CRLF *CHAR8`, the number giving how
/// many bytes follow.
pub open spec fn spec_literal(s: Seq<u8>, i: int) -> Option<(StrV, int)> {
    match spec_literal_header(s, i) {
        Some((n, mode, k)) => if k + n <= s.len() && all_in(s.subrange(k, k + n), ByteClass::Char8) {
            Some((StrV { kind: StrKind::Literal(mode), bytes: s.subrange(k, k + n) }, k + n))
        } else {
            None
        },
        None => None,
    }
}

/// Reads a `literal` at `i`.
pub fn read_literal(s: &[u8], i: usize) -> (r: Option<(Literal, usize)>)
    requires
        i <= s@.len(),
    ensures
        r matches Some((l, j)) ==> spec_literal(s@, i as int) == Some((IString::Literal(l).deep_view(), j as int)) && i < j <= s@.len(),
        r is None ==> spec_literal(s@, i as int) is None,
{
    if !byte(s, i, LBRACE) {
        return None;
    }
    let (n, j) = match read_number(s, i + 1) {
        Some(x) => x,
        None => return None,
    };
    let (mode, k) = if byte(s, j, PLUS) {
        (LiteralMode::NonSync, j + 1)
    } else {
        (LiteralMode::Sync, j)
    };
    if !(byte(s, k, RBRACE) && byte(s, k + 1, CR) && byte(s, k + 2, LF)) {
        return None;
    }
    let start = k + 3;
    if n as usize > s.len() - start {
        return None;
    }
    let end = start + n as usize;
    let data = &s[start..end];
    match first_outside(data, ByteClass::Char8) {
        Some(_) => None,
        None => Some((Literal { data: crate::chars::copy_of(data), mode }, end)),
    }
}

/// `string = quoted / literal`
pub open spec fn spec_string(s: Seq<u8>, i: int) -> Option<(StrV, int)> {
    match spec_quoted(s, i) {
        Some((c, j)) => Some((StrV { kind: StrKind::Quoted, bytes: c }, j)),
        None => spec_literal(s, i),
    }
}

/// Reads a `string` at `i`.
pub fn read_string(s: &[u8], i: usize) -> (r: Option<(IString, usize)>)
    requires
        i <= s@.len(),
    ensures
        read_view(r) == spec_string(s@, i as int),
        r matches Some((_, j)) ==> i < j <= s@.len(),
{
    match read_quoted(s, i) {
        Some((q, j)) => Some((IString::Quoted(q), j)),
        None => match read_literal(s, i) {
            Some((l, j)) => Some((IString::Literal(l), j)),
            None => None,
        },
    }
}

/// `astring = 1*ASTRING-CHAR / string`
pub open spec fn spec_astring(s: Seq<u8>, i: int) -> Option<(StrV, int)> {
    match spec_token(s, i, ByteClass::AString) {
        Some(e) => Some((StrV { kind: StrKind::Atom, bytes: s.subrange(i, e) }, e)),
        None => spec_string(s, i),
    }
}

/// Reads an `astring` at `i`.
pub fn read_astring(s: &[u8], i: usize) -> (r: Option<(AString, usize)>)
    requires
        i <= s@.len(),
    ensures
        read_view(r) == spec_astring(s@, i as int),
        r matches Some((_, j)) ==> i < j <= s@.len(),
{
    match token(s, i, ByteClass::AString) {
        Some(e) => {
            proof {
                crate::chars::lemma_scan_end(s@, i as int, ByteClass::AString);
            }
            Some((AString::Atom(AtomExt(crate::chars::copy_of(&s[i..e]))), e))
        },
        None => match read_string(s, i) {
            Some((st, j)) => Some((AString::String(st), j)),
            None => None,
        },
    }
}

/// `NIL`
pub const NIL: [u8; 3] = [78, 73, 76];

/// `nstring = string / nil`
pub open spec fn spec_nstring(s: Seq<u8>, i: int) -> Option<(Option<StrV>, int)> {
    match spec_string(s, i) {
        Some((v, j)) => Some((Some(v), j)),
        None => if spec_keyword(s, i, NIL@) {
            Some((None, i + 3))
        } else {
            None
        },
    }
}

/// Reads an `nstring` at `i`.
pub fn read_nstring(s: &[u8], i: usize) -> (r: Option<(NString, usize)>)
    requires
        i <= s@.len(),
    ensures
        read_view(r) == spec_nstring(s@, i as int),
        r matches Some((_, j)) ==> i < j <= s@.len(),
{
    match read_string(s, i) {
        Some((v, j)) => Some((NString(Some(v)), j)),
        None => {
            let nil = NIL;
            if keyword(s, i, nil.as_slice()) {
                Some((NString(None), i + 3))
            } else {
                None
            }
        },
    }
}

/// Reads a tag at `i`.
pub open spec fn spec_tag(s: Seq<u8>, i: int) -> Option<(Seq<u8>, int)> {
    match spec_token(s, i, ByteClass::Tag) {
        Some(e) => Some((s.subrange(i, e), e)),
        None => None,
    }
}

/// Reads a tag at `i`.
pub fn read_tag(s: &[u8], i: usize) -> (r: Option<(Tag, usize)>)
    requires
        i <= s@.len(),
    ensures
        read_view(r) == spec_tag(s@, i as int),
        r matches Some((_, j)) ==> i < j <= s@.len(),
{
    match token(s, i, ByteClass::Tag) {
        Some(e) => {
            proof {
                crate::chars::lemma_scan_end(s@, i as int, ByteClass::Tag);
            }
            Some((Tag(crate::chars::copy_of(&s[i..e])), e))
        },
        None => None,
    }
}

/// The rule `atom`.
pub struct AtomRule;

impl Rule for AtomRule {
    type Out = Atom;

    open spec fn spec_read(&self, s: Seq<u8>, i: int) -> Option<(Seq<u8>, int)> {
        spec_atom(s, i)
    }

    fn read(&self, s: &[u8], i: usize) -> (r: Option<(Atom, usize)>) {
        read_atom(s, i)
    }
}

/// The rule `astring`.
pub struct AStringRule;

impl Rule for AStringRule {
    type Out = AString;

    open spec fn spec_read(&self, s: Seq<u8>, i: int) -> Option<(StrV, int)> {
        spec_astring(s, i)
    }

    fn read(&self, s: &[u8], i: usize) -> (r: Option<(AString, usize)>) {
        read_astring(s, i)
    }
}

// ---------------------------------------------------------------------
// Writing.

/// The bytes of a quoted string's content, `"` and `\` escaped.
pub open spec fn escaped(c: Seq<u8>) -> Seq<u8>
    decreases c.len(),
{
    if c.len() == 0 {
        seq![]
    } else if is_quoted_special(c[0]) {
        seq![BACKSLASH, c[0]] + escaped(c.drop_first())
    } else {
        seq![c[0]] + escaped(c.drop_first())
    }
}

/// How a string is written.
pub open spec fn spec_write_str(v: StrV) -> Seq<u8> {
    match v.kind {
        StrKind::Atom => v.bytes,
        StrKind::Quoted => seq![DQUOTE] + escaped(v.bytes) + seq![DQUOTE],
        StrKind::Literal(mode) => seq![LBRACE] + decimal(v.bytes.len()) + (if mode == LiteralMode::NonSync {
            seq![PLUS]
        } else {
            seq![]
        }) + seq![RBRACE, CR, LF] + v.bytes,
    }
}

fn write_escaped(out: &mut Vec<u8>, c: &[u8])
    ensures
        final(out)@ == old(out)@ + escaped(c@),
{
    let ghost start = old(out)@;
    let mut k: usize = 0;
    assert(c@.subrange(0, c@.len() as int) =~= c@);
    while k < c.len()
        invariant
            k <= c@.len(),
            out@ + escaped(c@.subrange(k as int, c@.len() as int)) == start + escaped(c@),
        decreases c@.len() - k,
    {
        let ghost rest = c@.subrange(k as int, c@.len() as int);
        assert(rest.drop_first() =~= c@.subrange(k + 1, c@.len() as int));
        let b = c[k];
        if is_quoted_special(b) {
            out.push(BACKSLASH);
            out.push(b);
            assert(escaped(rest) == seq![BACKSLASH, b] + escaped(rest.drop_first()));
            assert(out@ + escaped(rest.drop_first()) =~= (out@.drop_last().drop_last()) + escaped(rest));
        } else {
            out.push(b);
            assert(escaped(rest) == seq![b] + escaped(rest.drop_first()));
            assert(out@ + escaped(rest.drop_first()) =~= (out@.drop_last()) + escaped(rest));
        }
        k = k + 1;
    }
    assert(c@.subrange(c@.len() as int, c@.len() as int) =~= Seq::<u8>::empty());
    assert(out@ + Seq::<u8>::empty() =~= out@);
}

/// Writes a quoted string.
pub fn write_quoted(out: &mut Vec<u8>, q: &Quoted)
    ensures
        final(out)@ == old(out)@ + spec_write_str(IString::Quoted(*q).deep_view()),
{
    let ghost start = old(out)@;
    out.push(DQUOTE);
    write_escaped(out, q.as_bytes());
    out.push(DQUOTE);
    assert(out@ =~= start + (seq![DQUOTE] + escaped(q.deep_view()) + seq![DQUOTE]));
}

/// Writes a literal.
pub fn write_literal(out: &mut Vec<u8>, l: &Literal)
    ensures
        final(out)@ == old(out)@ + spec_write_str(IString::Literal(*l).deep_view()),
{
    let ghost start = old(out)@;
    let data = l.data();
    out.push(LBRACE);
    let ghost a = out@;
    write_number_usize(out, data.len());
    let ghost b = out@;
    if l.mode() == LiteralMode::NonSync {
        out.push(PLUS);
    }
    let ghost c = out@;
    out.push(RBRACE);
    out.push(CR);
    out.push(LF);
    put(out, data);
    let ghost plus: Seq<u8> = if l.spec_mode() == LiteralMode::NonSync { seq![PLUS] } else { seq![] };
    assert(c =~= b + plus);
    assert(out@ =~= start + (seq![LBRACE] + decimal(data@.len()) + plus + seq![RBRACE, CR, LF] + data@));
}

/// Writes a length in decimal.
pub fn write_number_usize(out: &mut Vec<u8>, n: usize)
    ensures
        final(out)@ == old(out)@ + decimal(n as nat),
    decreases n,
{
    if n < 10 {
        out.push((n + 48) as u8);
        assert(decimal(n as nat) =~= seq![(n + 48) as u8]);
    } else {
        write_number_usize(out, n / 10);
        out.push((n % 10 + 48) as u8);
        assert(decimal(n as nat) =~= decimal((n / 10) as nat) + seq![((n % 10) + 48) as u8]);
    }
}

/// Writes a `string`.
pub fn write_istring(out: &mut Vec<u8>, v: &IString)
    ensures
        final(out)@ == old(out)@ + spec_write_str(v.deep_view()),
{
    match v {
        IString::Quoted(q) => write_quoted(out, q),
        IString::Literal(l) => write_literal(out, l),
    }
}

/// Writes an `astring`.
pub fn write_astring(out: &mut Vec<u8>, v: &AString)
    ensures
        final(out)@ == old(out)@ + spec_write_str(v.deep_view()),
{
    match v {
        AString::Atom(a) => put(out, a.as_bytes()),
        AString::String(s) => write_istring(out, s),
    }
}

/// How an `nstring` is written.
pub open spec fn spec_write_nstring(v: Option<StrV>) -> Seq<u8> {
    match v {
        Some(s) => spec_write_str(s),
        None => NIL@,
    }
}

/// Writes an `nstring`.
pub fn write_nstring(out: &mut Vec<u8>, v: &NString)
    ensures
        final(out)@ == old(out)@ + spec_write_nstring(v.deep_view()),
{
    match &v.0 {
        Some(s) => write_istring(out, s),
        None => {
            let nil = NIL;
            put(out, nil.as_slice());
        },
    }
}

} // verus!

verus! {

// ---------------------------------------------------------------------
// What is written reads back.

/// The escaped content of a quoted string and the closing quote read
/// back as the content.
pub proof fn lemma_quoted_rest_round_trip(c: Seq<u8>, s: Seq<u8>, i: int)
    requires
        all_in(c, ByteClass::Text),
        0 <= i,
        i + escaped(c).len() < s.len(),
        s.subrange(i, i + escaped(c).len()) == escaped(c),
        s[i + escaped(c).len()] == DQUOTE,
    ensures
        spec_quoted_rest(s, i) == Some((c, i + escaped(c).len() + 1)),
    decreases c.len(),
{
    if c.len() > 0 {
        let e = escaped(c);
        let tail = c.drop_first();
        assert forall|k: int| 0 <= k < tail.len() implies ByteClass::Text.spec_has(#[trigger] tail[k]) by {
            assert(tail[k] == c[k + 1]);
        }
        assert(ByteClass::Text.spec_has(c[0]));
        if is_quoted_special(c[0]) {
            assert(e == seq![BACKSLASH, c[0]] + escaped(tail));
            assert(s[i] == e[0]);
            assert(s[i + 1] == e[1]);
            assert(s.subrange(i + 2, i + 2 + escaped(tail).len()) =~= escaped(tail)) by {
                assert forall|k: int| 0 <= k < escaped(tail).len() implies s.subrange(i + 2, i + 2 + escaped(tail).len())[k] == escaped(tail)[k] by {
                    assert(s[i + 2 + k] == s.subrange(i, i + e.len())[k + 2]);
                    assert(e[k + 2] == escaped(tail)[k]);
                }
            }
            lemma_quoted_rest_round_trip(tail, s, i + 2);
        } else {
            assert(e == seq![c[0]] + escaped(tail));
            assert(s[i] == e[0]);
            assert(s.subrange(i + 1, i + 1 + escaped(tail).len()) =~= escaped(tail)) by {
                assert forall|k: int| 0 <= k < escaped(tail).len() implies s.subrange(i + 1, i + 1 + escaped(tail).len())[k] == escaped(tail)[k] by {
                    assert(s[i + 1 + k] == s.subrange(i, i + e.len())[k + 1]);
                    assert(e[k + 1] == escaped(tail)[k]);
                }
            }
            lemma_quoted_rest_round_trip(tail, s, i + 1);
        }
        assert(seq![c[0]] + tail =~= c);
    }
}

/// Whether a string's model is one that can be written: an atom of
/// `ASTRING-CHAR`s, a quoted string of text, or a literal without NUL
/// whose length a `number` can say.
pub open spec fn writable_str(v: StrV) -> bool {
    wf_str(v) && v.bytes.len() <= u32::MAX
}

/// A string written at `i` reads back as itself, as a `string` where it
/// is quoted or a literal.
pub proof fn lemma_string_round_trip(v: StrV, s: Seq<u8>, i: int)
    requires
        writable_str(v),
        v.kind != StrKind::Atom,
        0 <= i,
        i + spec_write_str(v).len() <= s.len(),
        s.subrange(i, i + spec_write_str(v).len()) == spec_write_str(v),
    ensures
        spec_string(s, i) == Some((v, i + spec_write_str(v).len())),
{
    let w = spec_write_str(v);
    match v.kind {
        StrKind::Quoted => {
            let e = escaped(v.bytes);
            assert(w == seq![DQUOTE] + e + seq![DQUOTE]);
            assert(s[i] == w[0]);
            assert(s[i + 1 + e.len()] == w[1 + e.len() as int]);
            assert(s.subrange(i + 1, i + 1 + e.len()) =~= e) by {
                assert forall|k: int| 0 <= k < e.len() implies s.subrange(i + 1, i + 1 + e.len())[k] == e[k] by {
                    assert(s[i + 1 + k] == s.subrange(i, i + w.len())[k + 1]);
                }
            }
            lemma_quoted_rest_round_trip(v.bytes, s, i + 1);
        },
        StrKind::Literal(mode) => {
            let n = v.bytes.len() as u32;
            let d = crate::num::decimal(n as nat);
            let plus: Seq<u8> = if mode == LiteralMode::NonSync { seq![PLUS] } else { seq![] };
            assert(w == seq![LBRACE] + d + plus + seq![RBRACE, CR, LF] + v.bytes);
            crate::num::lemma_decimal(n as nat);
            assert(s[i] == w[0]);
            assert(s.subrange(i + 1, i + 1 + d.len()) =~= d) by {
                assert forall|k: int| 0 <= k < d.len() implies s.subrange(i + 1, i + 1 + d.len())[k] == d[k] by {
                    assert(s[i + 1 + k] == s.subrange(i, i + w.len())[k + 1]);
                }
            }
            let j = i + 1 + d.len();
            assert(s[j] == w[1 + d.len() as int]);
            crate::num::lemma_number_round_trip(n, s, i + 1);
            let k = j + plus.len();
            assert(s[k] == w[k - i]);
            assert(s[k + 1] == w[k + 1 - i]);
            assert(s[k + 2] == w[k + 2 - i]);
            assert(s.subrange(k + 3, k + 3 + v.bytes.len()) =~= v.bytes) by {
                assert forall|q: int| 0 <= q < v.bytes.len() implies s.subrange(k + 3, k + 3 + v.bytes.len())[q] == v.bytes[q] by {
                    assert(s[k + 3 + q] == s.subrange(i, i + w.len())[k + 3 + q - i]);
                }
            }
            assert(spec_literal_header(s, i) == Some((n, mode, k + 3)));
        },
        StrKind::Atom => {},
    }
}

/// An `astring` written at `i`, and followed by a byte that cannot
/// continue an atom, reads back as itself.
pub proof fn lemma_astring_round_trip(v: StrV, s: Seq<u8>, i: int)
    requires
        writable_str(v),
        0 <= i,
        i + spec_write_str(v).len() < s.len(),
        s.subrange(i, i + spec_write_str(v).len()) == spec_write_str(v),
        !crate::chars::is_astring_char(s[i + spec_write_str(v).len()]),
    ensures
        spec_astring(s, i) == Some((v, i + spec_write_str(v).len())),
{
    let w = spec_write_str(v);
    match v.kind {
        StrKind::Atom => {
            let e = i + w.len();
            assert forall|k: int| i <= k < e implies ByteClass::AString.spec_has(#[trigger] s[k]) by {
                assert(s[k] == s.subrange(i, e)[k - i]);
            }
            crate::chars::lemma_scan_end_of_run(s, i, e, ByteClass::AString);
            assert(s.subrange(i, e) == v.bytes);
        },
        _ => {
            assert(s[i] == w[0]);
            assert(!crate::chars::is_astring_char(s[i]));
            assert(crate::chars::scan_end(s, i, ByteClass::AString) == i);
            lemma_string_round_trip(v, s, i);
        },
    }
}

/// An atom written at `i`, and followed by a byte that no atom holds,
/// reads back.
pub proof fn lemma_atom_round_trip(a: Seq<u8>, s: Seq<u8>, i: int)
    requires
        a.len() > 0,
        all_in(a, ByteClass::Atom),
        0 <= i,
        i + a.len() < s.len(),
        s.subrange(i, i + a.len()) == a,
        !ByteClass::Atom.spec_has(s[i + a.len()]),
    ensures
        spec_atom(s, i) == Some((a, i + a.len())),
{
    assert forall|k: int| i <= k < i + a.len() implies ByteClass::Atom.spec_has(#[trigger] s[k]) by {
        assert(s[k] == a[k - i]);
    }
    crate::chars::lemma_scan_end_of_run(s, i, i + a.len(), ByteClass::Atom);
}

/// Whether every name can be written as an atom and read back.
pub open spec fn writable_atoms(e: Seq<Seq<u8>>) -> bool {
    forall|k: int| 0 <= k < e.len() ==> (#[trigger] e[k]).len() > 0 && all_in(e[k], ByteClass::Atom)
}

} // verus!

verus! {

/// Whether an `nstring` can be written and read back: `NIL`, or a quoted
/// string or a literal that can.
pub open spec fn writable_nstring(v: Option<StrV>) -> bool {
    v matches Some(x) ==> writable_str(x) && x.kind != StrKind::Atom
}

/// A quoted string or a literal begins with `"` or `{`.
pub proof fn lemma_string_starts(v: StrV)
    requires
        v.kind != StrKind::Atom,
    ensures
        spec_write_str(v).len() > 0,
        spec_write_str(v)[0] == DQUOTE || spec_write_str(v)[0] == LBRACE,
{
}

/// An `nstring` written at `i` reads back.
pub proof fn lemma_nstring_round_trip(v: Option<StrV>, s: Seq<u8>, i: int)
    requires
        writable_nstring(v),
        0 <= i,
        i + spec_write_nstring(v).len() <= s.len(),
        s.subrange(i, i + spec_write_nstring(v).len()) == spec_write_nstring(v),
    ensures
        spec_nstring(s, i) == Some((v, i + spec_write_nstring(v).len())),
{
    match v {
        Some(x) => lemma_string_round_trip(x, s, i),
        None => {
            assert(s[i] == s.subrange(i, i + 3)[0]);
            crate::chars::lemma_keyword_at(s, i, NIL@);
        },
    }
}

} // verus!
