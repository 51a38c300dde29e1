//! URLAUTH (RFC 4467) and its BINARY extension to URLFETCH (RFC 5524):
//! the values a `URLFETCH` names and returns, and how the commands,
//! responses and the `URLMECH` code are read and written.

use vstd::prelude::*;

use crate::chars::{
    all_in, byte, keyword, put, scan, scan_end, spec_byte, spec_keyword, spec_token, token, ByteClass, CR, LF,
    LPAREN, RPAREN, SP,
};
use crate::mailbox::{read_mailbox, spec_mailbox, spec_write_mailbox, write_mailbox, Mailbox, MailboxV};
use crate::num::decimal;
use crate::rule::{prefixed, read_preceded, read_view, spec_preceded, write_prefixed, written, Rule, Writer};
use crate::strings::{
    read_astring, read_atom, read_nstring, spec_astring, spec_atom, spec_literal_header, spec_nstring,
    spec_write_nstring, spec_write_str, write_astring, write_nstring, write_number_usize, AString, AStringRule,
    Atom, AtomRule, LiteralMode, NString, StrV, LBRACE, PLUS, RBRACE,
};
use crate::body::{read_body, spec_body, spec_write_body, write_body, BodyStructure, BodyTokenV};
use crate::vec1::Vec1;

verus! {

/// `GENURLAUTH`
pub const GENURLAUTH: [u8; 10] = [71, 69, 78, 85, 82, 76, 65, 85, 84, 72];
/// `RESETKEY`
pub const RESETKEY: [u8; 8] = [82, 69, 83, 69, 84, 75, 69, 89];
/// `URLFETCH`
pub const URLFETCH: [u8; 8] = [85, 82, 76, 70, 69, 84, 67, 72];
/// `BODYPARTSTRUCTURE `
pub const BODYPARTSTRUCTURE_SP: [u8; 18] = [66, 79, 68, 89, 80, 65, 82, 84, 83, 84, 82, 85, 67, 84, 85, 82, 69, 32];
/// `BODY `
pub const BODY_SP: [u8; 5] = [66, 79, 68, 89, 32];
/// `BINARY `
pub const BINARY_SP: [u8; 7] = [66, 73, 78, 65, 82, 89, 32];
/// `URLMECH INTERNAL`
pub const URLMECH_SP_INTERNAL: [u8; 16] = [85, 82, 76, 77, 69, 67, 72, 32, 73, 78, 84, 69, 82, 78, 65, 76];
/// `==`
pub const EQ2: [u8; 2] = [61, 61];
/// `~`
pub const TILDE: u8 = 126;
/// `=`
pub const EQUALS: u8 = 61;

// ---------------------------------------------------------------------
// Values.

/// One URL a `URLFETCH` names, with what RFC 5524 asks be returned for
/// it: `url-fetch-arg = url-fetch-simple / url-fetch-ext`.
#[derive(Debug, PartialEq, Eq, Hash)]
pub struct UrlFetchArg {
    /// The authorized URL.
    pub url: AString,
    /// `None` for a bare URL (RFC 4467); the parameters, which may be
    /// none, for one in parentheses (RFC 5524).
    pub params: Option<Vec<Atom>>,
}

/// What a `URLFETCH` response carries for one URL.
#[derive(Debug, PartialEq, Eq, Hash)]
pub struct UrlFetchData {
    /// The URL, as the client sent it.
    pub url: AString,
    /// What was found.
    pub value: UrlFetchValue,
}

/// The data for one URL: RFC 4467's string, `NIL` when the URL is not
/// valid for any reason, or RFC 5524's metadata items.
#[derive(Debug, PartialEq, Eq, Hash)]
pub enum UrlFetchValue {
    /// `nstring`.
    Simple(NString),
    /// `url-metadata = 1*(SP "(" url-metadata-el ")")`.
    Metadata(Vec<UrlMetadata>),
}

/// One RFC 5524 metadata item.
#[derive(Debug, PartialEq, Eq, Hash)]
pub enum UrlMetadata {
    /// `"BODYPARTSTRUCTURE" SP body`: the part's structure.
    BodyPartStructure(BodyStructure),
    /// `"BODY" SP nstring`: the part as stored.
    Body(NString),
    /// `"BINARY" SP (nstring / literal8)`: the part with its
    /// Content-Transfer-Encoding undone, or `NIL`.
    Binary(NString8),
}

/// `literal8 = "~{" number ["+"] "}" CRLF *OCTET`: any bytes, NUL
/// included.
#[derive(Debug, PartialEq, Eq, Hash)]
pub struct Literal8 {
    pub data: Vec<u8>,
    pub mode: LiteralMode,
}

/// An `nstring` or a `literal8`.
#[derive(Debug, PartialEq, Eq, Hash)]
pub enum NString8 {
    NString(NString),
    Literal8(Literal8),
}

/// The model of an [`NString8`].
pub enum NString8V {
    NString(Option<StrV>),
    Literal8(LiteralMode, Seq<u8>),
}

/// The model of a [`UrlMetadata`].
pub enum UrlMetadataV {
    BodyPartStructure(Seq<BodyTokenV>),
    Body(Option<StrV>),
    Binary(NString8V),
}

/// The model of a [`UrlFetchValue`].
pub enum UrlFetchValueV {
    Simple(Option<StrV>),
    Metadata(Seq<UrlMetadataV>),
}

/// The model of a [`UrlFetchArg`].
pub struct UrlFetchArgV {
    pub url: StrV,
    pub params: Option<Seq<Seq<u8>>>,
}

/// The model of a [`UrlFetchData`].
pub struct UrlFetchDataV {
    pub url: StrV,
    pub value: UrlFetchValueV,
}

impl DeepView for NString8 {
    type V = NString8V;

    open spec fn deep_view(&self) -> NString8V {
        match self {
            NString8::NString(n) => NString8V::NString(n.deep_view()),
            NString8::Literal8(l) => NString8V::Literal8(l.mode, l.data@),
        }
    }
}

impl DeepView for UrlMetadata {
    type V = UrlMetadataV;

    open spec fn deep_view(&self) -> UrlMetadataV {
        match self {
            UrlMetadata::BodyPartStructure(b) => UrlMetadataV::BodyPartStructure(b.deep_view()),
            UrlMetadata::Body(n) => UrlMetadataV::Body(n.deep_view()),
            UrlMetadata::Binary(n) => UrlMetadataV::Binary(n.deep_view()),
        }
    }
}

impl DeepView for UrlFetchValue {
    type V = UrlFetchValueV;

    open spec fn deep_view(&self) -> UrlFetchValueV {
        match self {
            UrlFetchValue::Simple(n) => UrlFetchValueV::Simple(n.deep_view()),
            UrlFetchValue::Metadata(m) => UrlFetchValueV::Metadata(m.deep_view()),
        }
    }
}

impl DeepView for UrlFetchArg {
    type V = UrlFetchArgV;

    open spec fn deep_view(&self) -> UrlFetchArgV {
        UrlFetchArgV {
            url: self.url.deep_view(),
            params: match self.params {
                Some(p) => Some(p.deep_view()),
                None => None,
            },
        }
    }
}

impl DeepView for UrlFetchData {
    type V = UrlFetchDataV;

    open spec fn deep_view(&self) -> UrlFetchDataV {
        UrlFetchDataV { url: self.url.deep_view(), value: self.value.deep_view() }
    }
}

// ---------------------------------------------------------------------
// Commands.

/// `SP url-rump SP mechanism` without its first space: an `astring`, a
/// space and an atom.
pub open spec fn spec_url_rump(s: Seq<u8>, i: int) -> Option<((StrV, Seq<u8>), int)> {
    match spec_astring(s, i) {
        Some((u, j)) => if spec_byte(s, j, SP) {
            match spec_atom(s, j + 1) {
                Some((m, k)) => Some(((u, m), k)),
                None => None,
            }
        } else {
            None
        },
        None => None,
    }
}

/// The rule for a URL and its mechanism.
pub struct UrlRumpRule;

impl Rule for UrlRumpRule {
    type Out = (AString, Atom);

    open spec fn spec_read(&self, s: Seq<u8>, i: int) -> Option<((StrV, Seq<u8>), int)> {
        spec_url_rump(s, i)
    }

    fn read(&self, s: &[u8], i: usize) -> (r: Option<((AString, Atom), usize)>) {
        match read_astring(s, i) {
            Some((u, j)) => if byte(s, j, SP) {
                match read_atom(s, j + 1) {
                    Some((m, k)) => Some(((u, m), k)),
                    None => None,
                }
            } else {
                None
            },
            None => None,
        }
    }
}

/// `genurlauth = "GENURLAUTH" 1*(SP url-rump SP mechanism)`, where a
/// mechanism is read as an atom: which mechanisms exist is the server's
/// to say.
#[verifier::opaque]
pub open spec fn spec_genurlauth(s: Seq<u8>, i: int) -> Option<(Seq<(StrV, Seq<u8>)>, int)> {
    if spec_keyword(s, i, GENURLAUTH@) {
        let (v, j) = spec_preceded(UrlRumpRule, s, i + 10, SP);
        if v.len() > 0 {
            Some((v, j))
        } else {
            None
        }
    } else {
        None
    }
}

/// Reads a `GENURLAUTH` command at `i`, from its name on.
pub fn read_genurlauth(s: &[u8], i: usize) -> (r: Option<(Vec1<(AString, Atom)>, usize)>)
    requires
        i <= s@.len(),
    ensures
        read_view(r) == spec_genurlauth(s@, i as int),
        r matches Some((_, j)) ==> i < j <= s@.len(),
{
    proof {
        reveal(spec_genurlauth);
    }
    let k = GENURLAUTH;
    if !keyword(s, i, k.as_slice()) {
        return None;
    }
    let (v, j) = read_preceded(&UrlRumpRule, s, i + 10, SP);
    match Vec1::from_vec_dv(v) {
        Some(v) => Some((v, j)),
        None => None,
    }
}

/// `resetkey = "RESETKEY" [SP mailbox *(SP mechanism)]`
#[verifier::opaque]
pub open spec fn spec_resetkey(s: Seq<u8>, i: int) -> Option<((Option<MailboxV>, Seq<Seq<u8>>), int)> {
    if spec_keyword(s, i, RESETKEY@) {
        if spec_byte(s, i + 8, SP) {
            match spec_mailbox(s, i + 9) {
                Some((m, j)) => {
                    let (ms, k) = spec_preceded(AtomRule, s, j, SP);
                    Some(((Some(m), ms), k))
                },
                None => Some(((None, seq![]), i + 8)),
            }
        } else {
            Some(((None, seq![]), i + 8))
        }
    } else {
        None
    }
}

/// Reads a `RESETKEY` command at `i`, from its name on.
pub fn read_resetkey(s: &[u8], i: usize) -> (r: Option<((Option<Mailbox>, Vec<Atom>), usize)>)
    requires
        i <= s@.len(),
    ensures
        read_view(r) == spec_resetkey(s@, i as int),
        r matches Some((_, j)) ==> i < j <= s@.len(),
{
    proof {
        reveal(spec_resetkey);
    }
    let k = RESETKEY;
    if !keyword(s, i, k.as_slice()) {
        return None;
    }
    if byte(s, i + 8, SP) {
        if let Some((m, j)) = read_mailbox(s, i + 9) {
            let (ms, k) = read_preceded(&AtomRule, s, j, SP);
            return Some(((Some(m), ms), k));
        }
    }
    let v: Vec<Atom> = Vec::new();
    assert(v.deep_view() =~= seq![]);
    Some(((None, v), i + 8))
}

/// `url-fetch-arg = url-fetch-simple / url-fetch-ext`, `url-fetch-ext =
/// "(" url-full *(SP url-fetch-param) ")"`, the parenthesized form tried
/// first; a parameter is read as an atom.
pub open spec fn spec_url_fetch_arg(s: Seq<u8>, i: int) -> Option<(UrlFetchArgV, int)> {
    let ext = if spec_byte(s, i, LPAREN) {
        match spec_astring(s, i + 1) {
            Some((u, j)) => {
                let (ps, k) = spec_preceded(AtomRule, s, j, SP);
                if spec_byte(s, k, RPAREN) {
                    Some((UrlFetchArgV { url: u, params: Some(ps) }, k + 1))
                } else {
                    None
                }
            },
            None => None,
        }
    } else {
        None
    };
    crate::search::alt(ext, match spec_astring(s, i) {
        Some((u, j)) => Some((UrlFetchArgV { url: u, params: None }, j)),
        None => None,
    })
}

/// The rule `url-fetch-arg`.
pub struct UrlFetchArgRule;

impl Rule for UrlFetchArgRule {
    type Out = UrlFetchArg;

    open spec fn spec_read(&self, s: Seq<u8>, i: int) -> Option<(UrlFetchArgV, int)> {
        spec_url_fetch_arg(s, i)
    }

    fn read(&self, s: &[u8], i: usize) -> (r: Option<(UrlFetchArg, usize)>) {
        if byte(s, i, LPAREN) {
            if let Some((u, j)) = read_astring(s, i + 1) {
                let (ps, k) = read_preceded(&AtomRule, s, j, SP);
                if byte(s, k, RPAREN) {
                    return Some((UrlFetchArg { url: u, params: Some(ps) }, k + 1));
                }
            }
        }
        match read_astring(s, i) {
            Some((u, j)) => Some((UrlFetchArg { url: u, params: None }, j)),
            None => None,
        }
    }
}

/// `urlfetch = "URLFETCH" 1*(SP url-fetch-arg)`
#[verifier::opaque]
pub open spec fn spec_urlfetch(s: Seq<u8>, i: int) -> Option<(Seq<UrlFetchArgV>, int)> {
    if spec_keyword(s, i, URLFETCH@) {
        let (v, j) = spec_preceded(UrlFetchArgRule, s, i + 8, SP);
        if v.len() > 0 {
            Some((v, j))
        } else {
            None
        }
    } else {
        None
    }
}

/// Reads a `URLFETCH` command at `i`, from its name on.
pub fn read_urlfetch(s: &[u8], i: usize) -> (r: Option<(Vec1<UrlFetchArg>, usize)>)
    requires
        i <= s@.len(),
    ensures
        read_view(r) == spec_urlfetch(s@, i as int),
        r matches Some((_, j)) ==> i < j <= s@.len(),
{
    proof {
        reveal(spec_urlfetch);
    }
    let k = URLFETCH;
    if !keyword(s, i, k.as_slice()) {
        return None;
    }
    let (v, j) = read_preceded(&UrlFetchArgRule, s, i + 8, SP);
    match Vec1::from_vec_dv(v) {
        Some(v) => Some((v, j)),
        None => None,
    }
}

// ---------------------------------------------------------------------
// Responses.

/// `genurlauth-data = "GENURLAUTH" 1*(SP url-full)`, from the name on.
pub open spec fn spec_genurlauth_data(s: Seq<u8>, i: int) -> Option<(Seq<StrV>, int)> {
    if spec_keyword(s, i, GENURLAUTH@) {
        let (v, j) = spec_preceded(AStringRule, s, i + 10, SP);
        if v.len() > 0 {
            Some((v, j))
        } else {
            None
        }
    } else {
        None
    }
}

/// Reads a `GENURLAUTH` response at `i`, from its name on.
pub fn read_genurlauth_data(s: &[u8], i: usize) -> (r: Option<(Vec1<AString>, usize)>)
    requires
        i <= s@.len(),
    ensures
        read_view(r) == spec_genurlauth_data(s@, i as int),
        r matches Some((_, j)) ==> i < j <= s@.len(),
{
    let k = GENURLAUTH;
    if !keyword(s, i, k.as_slice()) {
        return None;
    }
    let (v, j) = read_preceded(&AStringRule, s, i + 10, SP);
    match Vec1::from_vec_dv(v) {
        Some(v) => Some((v, j)),
        None => None,
    }
}

/// `literal8 = "~{" number ["+"] "}" CRLF *OCTET`
pub open spec fn spec_literal8(s: Seq<u8>, i: int) -> Option<((LiteralMode, Seq<u8>), int)> {
    if spec_byte(s, i, TILDE) {
        match spec_literal_header(s, i + 1) {
            Some((n, mode, k)) => if k + n <= s.len() {
                Some(((mode, s.subrange(k, k + n)), k + n))
            } else {
                None
            },
            None => None,
        }
    } else {
        None
    }
}

fn read_literal8(s: &[u8], i: usize) -> (r: Option<(Literal8, usize)>)
    requires
        i <= s@.len(),
    ensures
        r matches Some((l, j)) ==> spec_literal8(s@, i as int) == Some(((l.mode, l.data@), j as int)) && i < j <= s@.len(),
        r is None ==> spec_literal8(s@, i as int) is None,
{
    if !byte(s, i, TILDE) || !byte(s, i + 1, LBRACE) {
        return None;
    }
    let (n, j) = match crate::num::read_number(s, i + 2) {
        Some(x) => x,
        None => return None,
    };
    let (mode, k) = if byte(s, j, PLUS) {
        (LiteralMode::NonSync, j + 1)
    } else {
        (LiteralMode::Sync, j)
    };
    if !(byte(s, k, RBRACE) && byte(s, k + 1, CR) && byte(s, k + 2, LF)) {
        return None;
    }
    let start = k + 3;
    if n as usize > s.len() - start {
        return None;
    }
    let end = start + n as usize;
    Some((Literal8 { data: crate::chars::copy_of(&s[start..end]), mode }, end))
}

/// `url-metadata-el = url-meta-bodystruct / url-meta-body /
/// url-meta-binary`, with `url-meta-bodystruct = "BODYPARTSTRUCTURE" SP
/// body`, `url-meta-body = "BODY" SP nstring` and `url-meta-binary =
/// "BINARY" SP (nstring / literal8)`.
pub open spec fn spec_url_metadata_el(s: Seq<u8>, i: int) -> Option<(UrlMetadataV, int)> {
    if spec_keyword(s, i, BODYPARTSTRUCTURE_SP@) {
        match spec_body(s, i + 18) {
            Some((b, j)) => Some((UrlMetadataV::BodyPartStructure(b), j)),
            None => None,
        }
    } else if spec_keyword(s, i, BODY_SP@) {
        match spec_nstring(s, i + 5) {
            Some((n, j)) => Some((UrlMetadataV::Body(n), j)),
            None => None,
        }
    } else if spec_keyword(s, i, BINARY_SP@) {
        match spec_nstring(s, i + 7) {
            Some((n, j)) => Some((UrlMetadataV::Binary(NString8V::NString(n)), j)),
            None => match spec_literal8(s, i + 7) {
                Some(((m, d), j)) => Some((UrlMetadataV::Binary(NString8V::Literal8(m, d)), j)),
                None => None,
            },
        }
    } else {
        None
    }
}

/// `"(" url-metadata-el ")"`
pub open spec fn spec_url_metadata_paren(s: Seq<u8>, i: int) -> Option<(UrlMetadataV, int)> {
    if spec_byte(s, i, LPAREN) {
        match spec_url_metadata_el(s, i + 1) {
            Some((m, j)) => if spec_byte(s, j, RPAREN) {
                Some((m, j + 1))
            } else {
                None
            },
            None => None,
        }
    } else {
        None
    }
}

/// The rule for a metadata item in parentheses.
pub struct UrlMetadataRule;

impl Rule for UrlMetadataRule {
    type Out = UrlMetadata;

    open spec fn spec_read(&self, s: Seq<u8>, i: int) -> Option<(UrlMetadataV, int)> {
        spec_url_metadata_paren(s, i)
    }

    fn read(&self, s: &[u8], i: usize) -> (r: Option<(UrlMetadata, usize)>) {
        if !byte(s, i, LPAREN) {
            return None;
        }
        let i = i + 1;
        let (m, j) = if keyword(s, i, BODYPARTSTRUCTURE_SP.as_slice()) {
            match read_body(s, i + 18) {
                Some((b, j)) => (UrlMetadata::BodyPartStructure(b), j),
                None => return None,
            }
        } else if keyword(s, i, BODY_SP.as_slice()) {
            match read_nstring(s, i + 5) {
                Some((n, j)) => (UrlMetadata::Body(n), j),
                None => return None,
            }
        } else if keyword(s, i, BINARY_SP.as_slice()) {
            match read_nstring(s, i + 7) {
                Some((n, j)) => (UrlMetadata::Binary(NString8::NString(n)), j),
                None => match read_literal8(s, i + 7) {
                    Some((l, j)) => (UrlMetadata::Binary(NString8::Literal8(l)), j),
                    None => return None,
                },
            }
        } else {
            return None;
        };
        if byte(s, j, RPAREN) {
            Some((m, j + 1))
        } else {
            None
        }
    }
}

/// What follows a URL in a `URLFETCH` response: `SP nstring`, or
/// `1*(SP "(" url-metadata-el ")")`.
pub open spec fn spec_url_fetch_value(s: Seq<u8>, i: int) -> Option<(UrlFetchValueV, int)> {
    let simple = if spec_byte(s, i, SP) {
        match spec_nstring(s, i + 1) {
            Some((n, j)) => Some((UrlFetchValueV::Simple(n), j)),
            None => None,
        }
    } else {
        None
    };
    crate::search::alt(simple, {
        let (ms, j) = spec_preceded(UrlMetadataRule, s, i, SP);
        if ms.len() > 0 {
            Some((UrlFetchValueV::Metadata(ms), j))
        } else {
            None
        }
    })
}

/// `url-full` and what follows it in a `URLFETCH` response.
pub open spec fn spec_url_fetch_data(s: Seq<u8>, i: int) -> Option<(UrlFetchDataV, int)> {
    match spec_astring(s, i) {
        Some((u, j)) => match spec_url_fetch_value(s, j) {
            Some((v, k)) => Some((UrlFetchDataV { url: u, value: v }, k)),
            None => None,
        },
        None => None,
    }
}

/// The rule for one URL's data in a `URLFETCH` response.
pub struct UrlFetchDataRule;

impl Rule for UrlFetchDataRule {
    type Out = UrlFetchData;

    open spec fn spec_read(&self, s: Seq<u8>, i: int) -> Option<(UrlFetchDataV, int)> {
        spec_url_fetch_data(s, i)
    }

    fn read(&self, s: &[u8], i: usize) -> (r: Option<(UrlFetchData, usize)>) {
        let (u, j) = match read_astring(s, i) {
            Some(x) => x,
            None => return None,
        };
        if byte(s, j, SP) {
            if let Some((n, k)) = read_nstring(s, j + 1) {
                return Some((UrlFetchData { url: u, value: UrlFetchValue::Simple(n) }, k));
            }
        }
        let (ms, k) = read_preceded(&UrlMetadataRule, s, j, SP);
        if ms.len() > 0 {
            Some((UrlFetchData { url: u, value: UrlFetchValue::Metadata(ms) }, k))
        } else {
            None
        }
    }
}

/// `urlfetch-data = "URLFETCH" 1*(SP (urldata-simple / urldata-ext))`,
/// from the name on.
pub open spec fn spec_urlfetch_data(s: Seq<u8>, i: int) -> Option<(Seq<UrlFetchDataV>, int)> {
    if spec_keyword(s, i, URLFETCH@) {
        let (v, j) = spec_preceded(UrlFetchDataRule, s, i + 8, SP);
        if v.len() > 0 {
            Some((v, j))
        } else {
            None
        }
    } else {
        None
    }
}

/// Reads a `URLFETCH` response at `i`, from its name on.
pub fn read_urlfetch_data(s: &[u8], i: usize) -> (r: Option<(Vec1<UrlFetchData>, usize)>)
    requires
        i <= s@.len(),
    ensures
        read_view(r) == spec_urlfetch_data(s@, i as int),
        r matches Some((_, j)) ==> i < j <= s@.len(),
{
    let k = URLFETCH;
    if !keyword(s, i, k.as_slice()) {
        return None;
    }
    let (v, j) = read_preceded(&UrlFetchDataRule, s, i + 8, SP);
    match Vec1::from_vec_dv(v) {
        Some(v) => Some((v, j)),
        None => None,
    }
}

// ---------------------------------------------------------------------
// The URLMECH code.

/// `base64`, read as it is written: base64 characters and the padding
/// after them.
pub open spec fn spec_base64(s: Seq<u8>, i: int) -> Option<(Seq<u8>, int)> {
    let e = scan_end(s, i, ByteClass::Base64);
    if e < s.len() {
        let f = if spec_keyword(s, e, EQ2@) {
            e + 2
        } else if spec_byte(s, e, EQUALS) {
            e + 1
        } else {
            e
        };
        Some((s.subrange(i, f), f))
    } else {
        None
    }
}

/// `mechanism ["=" base64]`, where `mechanism = "INTERNAL" / 1*(ALPHA /
/// DIGIT / "-" / ".")`: read by its own rule and not as an atom, which
/// would take the `=` and the key after it.
pub open spec fn spec_mechanism(s: Seq<u8>, i: int) -> Option<((Seq<u8>, Option<Seq<u8>>), int)> {
    match spec_token(s, i, ByteClass::Mechanism) {
        Some(e) => {
            let m = s.subrange(i, e);
            if spec_byte(s, e, EQUALS) {
                match spec_base64(s, e + 1) {
                    Some((b, f)) => Some(((m, Some(b)), f)),
                    None => Some(((m, None), e)),
                }
            } else {
                Some(((m, None), e))
            }
        },
        None => None,
    }
}

/// A mechanism and its key in a `URLMECH` code.
#[derive(Debug, PartialEq, Eq, Hash)]
pub struct UrlMechanism {
    pub mechanism: Atom,
    /// The key, as base64 text, when there is one.
    pub key: Option<Vec<u8>>,
}

impl DeepView for UrlMechanism {
    type V = (Seq<u8>, Option<Seq<u8>>);

    open spec fn deep_view(&self) -> (Seq<u8>, Option<Seq<u8>>) {
        (self.mechanism.deep_view(), match self.key {
            Some(k) => Some(k@),
            None => None,
        })
    }
}

/// The rule for a mechanism and its key.
pub struct MechanismRule;

impl Rule for MechanismRule {
    type Out = UrlMechanism;

    open spec fn spec_read(&self, s: Seq<u8>, i: int) -> Option<((Seq<u8>, Option<Seq<u8>>), int)> {
        spec_mechanism(s, i)
    }

    fn read(&self, s: &[u8], i: usize) -> (r: Option<(UrlMechanism, usize)>) {
        let e = match token(s, i, ByteClass::Mechanism) {
            Some(e) => e,
            None => return None,
        };
        proof {
            crate::chars::lemma_scan_end(s@, i as int, ByteClass::Mechanism);
            let m = s@.subrange(i as int, e as int);
            assert forall|k: int| 0 <= k < m.len() implies ByteClass::Atom.spec_has(#[trigger] m[k]) by {
                assert(ByteClass::Mechanism.spec_has(m[k]));
            }
        }
        let mechanism = Atom::unvalidated(crate::chars::copy_of(&s[i..e]));
        if byte(s, e, EQUALS) {
            let f0 = scan(s, e + 1, ByteClass::Base64);
            if f0 < s.len() {
                let f = if keyword(s, f0, EQ2.as_slice()) {
                    f0 + 2
                } else if byte(s, f0, EQUALS) {
                    f0 + 1
                } else {
                    f0
                };
                return Some((UrlMechanism { mechanism, key: Some(crate::chars::copy_of(&s[e + 1..f])) }, f));
            }
        }
        Some((UrlMechanism { mechanism, key: None }, e))
    }
}

/// `"URLMECH" SP "INTERNAL" *(SP mechanism ["=" base64])`: the
/// mechanisms after `INTERNAL`.
pub open spec fn spec_urlmech(s: Seq<u8>, i: int) -> Option<(Seq<(Seq<u8>, Option<Seq<u8>>)>, int)> {
    if spec_keyword(s, i, URLMECH_SP_INTERNAL@) {
        Some(spec_preceded(MechanismRule, s, i + 16, SP))
    } else {
        None
    }
}

/// Reads a `URLMECH` code at `i`.
pub fn read_urlmech(s: &[u8], i: usize) -> (r: Option<(Vec<UrlMechanism>, usize)>)
    requires
        i <= s@.len(),
    ensures
        read_view(r) == spec_urlmech(s@, i as int),
        r matches Some((_, j)) ==> i < j <= s@.len(),
{
    let k = URLMECH_SP_INTERNAL;
    if !keyword(s, i, k.as_slice()) {
        return None;
    }
    Some(read_preceded(&MechanismRule, s, i + 16, SP))
}

} // verus!

verus! {

// ---------------------------------------------------------------------
// Writing.

/// Writes atoms.
pub struct AtomWriter;

impl Writer for AtomWriter {
    type In = Atom;

    open spec fn spec_write(&self, v: Seq<u8>) -> Seq<u8> {
        v
    }

    fn write(&self, out: &mut Vec<u8>, v: &Atom) {
        put(out, v.as_bytes())
    }
}

/// Writes `astring`s.
pub struct AStringWriter;

impl Writer for AStringWriter {
    type In = AString;

    open spec fn spec_write(&self, v: StrV) -> Seq<u8> {
        spec_write_str(v)
    }

    fn write(&self, out: &mut Vec<u8>, v: &AString) {
        write_astring(out, v)
    }
}

/// Writes a URL and its mechanism.
pub struct UrlRumpWriter;

impl Writer for UrlRumpWriter {
    type In = (AString, Atom);

    open spec fn spec_write(&self, v: (StrV, Seq<u8>)) -> Seq<u8> {
        spec_write_str(v.0) + seq![SP] + v.1
    }

    fn write(&self, out: &mut Vec<u8>, v: &(AString, Atom)) {
        let ghost start = old(out)@;
        write_astring(out, &v.0);
        out.push(SP);
        put(out, v.1.as_bytes());
        assert(out@ =~= start + (spec_write_str(v.0.deep_view()) + seq![SP] + v.1.deep_view()));
    }
}

/// How a `GENURLAUTH` command is written, from its name on.
pub open spec fn spec_write_genurlauth(v: Seq<(StrV, Seq<u8>)>) -> Seq<u8> {
    GENURLAUTH@ + prefixed(written(UrlRumpWriter, v), seq![SP])
}

/// Writes a `GENURLAUTH` command, from its name on.
pub fn write_genurlauth(out: &mut Vec<u8>, v: &Vec1<(AString, Atom)>)
    ensures
        final(out)@ == old(out)@ + spec_write_genurlauth(v.deep_view()),
{
    let ghost start = old(out)@;
    put(out, GENURLAUTH.as_slice());
    let sp = [SP];
    write_prefixed(&UrlRumpWriter, out, v.as_slice_dv(), sp.as_slice());
    assert(sp@ =~= seq![SP]);
    assert(out@ =~= start + spec_write_genurlauth(v.deep_view()));
}

/// How a `RESETKEY` command is written, from its name on: the
/// mechanisms are written only after a mailbox.
pub open spec fn spec_write_resetkey(m: Option<MailboxV>, ms: Seq<Seq<u8>>) -> Seq<u8> {
    RESETKEY@ + match m {
        Some(m) => seq![SP] + spec_write_mailbox(m) + prefixed(written(AtomWriter, ms), seq![SP]),
        None => seq![],
    }
}

/// Writes a `RESETKEY` command, from its name on.
pub fn write_resetkey(out: &mut Vec<u8>, m: &Option<Mailbox>, ms: &Vec<Atom>)
    ensures
        final(out)@ == old(out)@ + spec_write_resetkey(match m {
            Some(m) => Some(m.deep_view()),
            None => None,
        }, ms.deep_view()),
{
    let ghost start = old(out)@;
    put(out, RESETKEY.as_slice());
    match m {
        Some(m) => {
            out.push(SP);
            write_mailbox(out, m);
            let sp = [SP];
            write_prefixed(&AtomWriter, out, ms.as_slice(), sp.as_slice());
            assert(sp@ =~= seq![SP]);
        },
        None => {},
    }
    assert(out@ =~= start + spec_write_resetkey(match m {
        Some(m) => Some(m.deep_view()),
        None => None,
    }, ms.deep_view()));
}

/// How a `url-fetch-arg` is written.
pub open spec fn spec_write_url_fetch_arg(a: UrlFetchArgV) -> Seq<u8> {
    match a.params {
        None => spec_write_str(a.url),
        Some(ps) => seq![LPAREN] + spec_write_str(a.url) + prefixed(written(AtomWriter, ps), seq![SP]) + seq![RPAREN],
    }
}

/// Writes `url-fetch-arg`s.
pub struct UrlFetchArgWriter;

impl Writer for UrlFetchArgWriter {
    type In = UrlFetchArg;

    open spec fn spec_write(&self, v: UrlFetchArgV) -> Seq<u8> {
        spec_write_url_fetch_arg(v)
    }

    fn write(&self, out: &mut Vec<u8>, v: &UrlFetchArg) {
        let ghost start = old(out)@;
        match &v.params {
            None => write_astring(out, &v.url),
            Some(ps) => {
                out.push(LPAREN);
                write_astring(out, &v.url);
                let sp = [SP];
                write_prefixed(&AtomWriter, out, ps.as_slice(), sp.as_slice());
                out.push(RPAREN);
                assert(sp@ =~= seq![SP]);
            },
        }
        assert(out@ =~= start + spec_write_url_fetch_arg(v.deep_view()));
    }
}

/// How a `URLFETCH` command is written, from its name on.
pub open spec fn spec_write_urlfetch(v: Seq<UrlFetchArgV>) -> Seq<u8> {
    URLFETCH@ + prefixed(written(UrlFetchArgWriter, v), seq![SP])
}

/// Writes a `URLFETCH` command, from its name on.
pub fn write_urlfetch(out: &mut Vec<u8>, v: &Vec1<UrlFetchArg>)
    ensures
        final(out)@ == old(out)@ + spec_write_urlfetch(v.deep_view()),
{
    let ghost start = old(out)@;
    put(out, URLFETCH.as_slice());
    let sp = [SP];
    write_prefixed(&UrlFetchArgWriter, out, v.as_slice_dv(), sp.as_slice());
    assert(sp@ =~= seq![SP]);
    assert(out@ =~= start + spec_write_urlfetch(v.deep_view()));
}

/// How a `GENURLAUTH` response is written, from its name on.
pub open spec fn spec_write_genurlauth_data(v: Seq<StrV>) -> Seq<u8> {
    GENURLAUTH@ + prefixed(written(AStringWriter, v), seq![SP])
}

/// Writes a `GENURLAUTH` response, from its name on.
pub fn write_genurlauth_data(out: &mut Vec<u8>, v: &Vec1<AString>)
    ensures
        final(out)@ == old(out)@ + spec_write_genurlauth_data(v.deep_view()),
{
    let ghost start = old(out)@;
    put(out, GENURLAUTH.as_slice());
    let sp = [SP];
    write_prefixed(&AStringWriter, out, v.as_slice_dv(), sp.as_slice());
    assert(sp@ =~= seq![SP]);
    assert(out@ =~= start + spec_write_genurlauth_data(v.deep_view()));
}

/// How a metadata item is written, in its parentheses.
pub open spec fn spec_write_url_metadata(m: UrlMetadataV) -> Seq<u8> {
    seq![LPAREN] + match m {
        UrlMetadataV::BodyPartStructure(b) => BODYPARTSTRUCTURE_SP@ + spec_write_body(b),
        UrlMetadataV::Body(n) => BODY_SP@ + spec_write_nstring(n),
        UrlMetadataV::Binary(NString8V::NString(n)) => BINARY_SP@ + spec_write_nstring(n),
        UrlMetadataV::Binary(NString8V::Literal8(mode, d)) => BINARY_SP@ + seq![TILDE, LBRACE] + decimal(d.len())
            + (if mode == LiteralMode::NonSync {
            seq![PLUS]
        } else {
            seq![]
        }) + seq![RBRACE, CR, LF] + d,
    } + seq![RPAREN]
}

/// Writes metadata items.
pub struct UrlMetadataWriter;

impl Writer for UrlMetadataWriter {
    type In = UrlMetadata;

    open spec fn spec_write(&self, v: UrlMetadataV) -> Seq<u8> {
        spec_write_url_metadata(v)
    }

    fn write(&self, out: &mut Vec<u8>, v: &UrlMetadata) {
        let ghost start = old(out)@;
        out.push(LPAREN);
        match v {
            UrlMetadata::BodyPartStructure(b) => {
                put(out, BODYPARTSTRUCTURE_SP.as_slice());
                write_body(out, b);
            },
            UrlMetadata::Body(n) => {
                put(out, BODY_SP.as_slice());
                write_nstring(out, n);
            },
            UrlMetadata::Binary(NString8::NString(n)) => {
                put(out, BINARY_SP.as_slice());
                write_nstring(out, n);
            },
            UrlMetadata::Binary(NString8::Literal8(l)) => {
                put(out, BINARY_SP.as_slice());
                out.push(TILDE);
                out.push(LBRACE);
                write_number_usize(out, l.data.len());
                if l.mode == LiteralMode::NonSync {
                    out.push(PLUS);
                }
                out.push(RBRACE);
                out.push(CR);
                out.push(LF);
                put(out, l.data.as_slice());
            },
        }
        out.push(RPAREN);
        assert(out@ =~= start + spec_write_url_metadata(v.deep_view()));
    }
}

/// How one URL's data is written.
pub open spec fn spec_write_url_fetch_data(d: UrlFetchDataV) -> Seq<u8> {
    spec_write_str(d.url) + match d.value {
        UrlFetchValueV::Simple(n) => seq![SP] + spec_write_nstring(n),
        UrlFetchValueV::Metadata(ms) => prefixed(written(UrlMetadataWriter, ms), seq![SP]),
    }
}

/// Writes URLs' data.
pub struct UrlFetchDataWriter;

impl Writer for UrlFetchDataWriter {
    type In = UrlFetchData;

    open spec fn spec_write(&self, v: UrlFetchDataV) -> Seq<u8> {
        spec_write_url_fetch_data(v)
    }

    fn write(&self, out: &mut Vec<u8>, v: &UrlFetchData) {
        let ghost start = old(out)@;
        write_astring(out, &v.url);
        match &v.value {
            UrlFetchValue::Simple(n) => {
                out.push(SP);
                write_nstring(out, n);
            },
            UrlFetchValue::Metadata(ms) => {
                let sp = [SP];
                write_prefixed(&UrlMetadataWriter, out, ms.as_slice(), sp.as_slice());
                assert(sp@ =~= seq![SP]);
            },
        }
        assert(out@ =~= start + spec_write_url_fetch_data(v.deep_view()));
    }
}

/// How a `URLFETCH` response is written, from its name on.
pub open spec fn spec_write_urlfetch_data(v: Seq<UrlFetchDataV>) -> Seq<u8> {
    URLFETCH@ + prefixed(written(UrlFetchDataWriter, v), seq![SP])
}

/// Writes a `URLFETCH` response, from its name on.
pub fn write_urlfetch_data(out: &mut Vec<u8>, v: &Vec1<UrlFetchData>)
    ensures
        final(out)@ == old(out)@ + spec_write_urlfetch_data(v.deep_view()),
{
    let ghost start = old(out)@;
    put(out, URLFETCH.as_slice());
    let sp = [SP];
    write_prefixed(&UrlFetchDataWriter, out, v.as_slice_dv(), sp.as_slice());
    assert(sp@ =~= seq![SP]);
    assert(out@ =~= start + spec_write_urlfetch_data(v.deep_view()));
}

/// Writes mechanisms and their keys.
pub struct MechanismWriter;

impl Writer for MechanismWriter {
    type In = UrlMechanism;

    open spec fn spec_write(&self, v: (Seq<u8>, Option<Seq<u8>>)) -> Seq<u8> {
        v.0 + match v.1 {
            Some(k) => seq![EQUALS] + k,
            None => seq![],
        }
    }

    fn write(&self, out: &mut Vec<u8>, v: &UrlMechanism) {
        let ghost start = old(out)@;
        put(out, v.mechanism.as_bytes());
        match &v.key {
            Some(k) => {
                out.push(EQUALS);
                put(out, k.as_slice());
            },
            None => {},
        }
        assert(out@ =~= start + self.spec_write(v.deep_view()));
    }
}

/// How a `URLMECH` code is written.
pub open spec fn spec_write_urlmech(ms: Seq<(Seq<u8>, Option<Seq<u8>>)>) -> Seq<u8> {
    URLMECH_SP_INTERNAL@ + prefixed(written(MechanismWriter, ms), seq![SP])
}

/// Writes a `URLMECH` code.
pub fn write_urlmech(out: &mut Vec<u8>, ms: &Vec<UrlMechanism>)
    ensures
        final(out)@ == old(out)@ + spec_write_urlmech(ms.deep_view()),
{
    let ghost start = old(out)@;
    put(out, URLMECH_SP_INTERNAL.as_slice());
    let sp = [SP];
    write_prefixed(&MechanismWriter, out, ms.as_slice(), sp.as_slice());
    assert(sp@ =~= seq![SP]);
    assert(out@ =~= start + spec_write_urlmech(ms.deep_view()));
}

// ---------------------------------------------------------------------
// What is written reads back.

/// Whether URLs and their mechanisms can be written and read back.
pub open spec fn writable_url_rumps(v: Seq<(StrV, Seq<u8>)>) -> bool {
    forall|k: int| 0 <= k < v.len() ==> crate::strings::writable_str((#[trigger] v[k]).0) && v[k].1.len() > 0
        && all_in(v[k].1, ByteClass::Atom)
}

/// A `GENURLAUTH` command, written at `i` and followed by CR, reads back.
pub proof fn lemma_genurlauth_round_trip(v: Seq<(StrV, Seq<u8>)>, s: Seq<u8>, i: int)
    requires
        v.len() > 0,
        writable_url_rumps(v),
        0 <= i,
        i + spec_write_genurlauth(v).len() < s.len(),
        s.subrange(i, i + spec_write_genurlauth(v).len()) == spec_write_genurlauth(v),
        s[i + spec_write_genurlauth(v).len()] == CR,
    ensures
        spec_genurlauth(s, i) == Some((v, i + spec_write_genurlauth(v).len())),
{
    reveal(spec_genurlauth);
    let w = spec_write_genurlauth(v);
    let ws = written(UrlRumpWriter, v);
    let pw = prefixed(ws, seq![SP]);
    let after = |b: u8| b == SP || b == CR;
    crate::chars::lemma_part(s, i, w, 0, 10);
    assert(w.subrange(0, 10) =~= GENURLAUTH@);
    crate::chars::lemma_keyword_at(s, i, GENURLAUTH@);
    crate::chars::lemma_part(s, i, w, 10, pw.len() as int);
    assert(w.subrange(10, w.len() as int) =~= pw);
    assert forall|k: int, q: int| 0 <= k < v.len() implies #[trigger] crate::rule::reads_at(UrlRumpRule, s, q, v[k], ws[k], after) by {
        let a = spec_write_str(v[k].0);
        let m = v[k].1;
        assert(ws[k] == a + seq![SP] + m);
        if 0 <= q && q + ws[k].len() < s.len() && s.subrange(q, q + ws[k].len()) == ws[k] && after(s[q + ws[k].len()]) {
            crate::chars::lemma_part(s, q, ws[k], 0, a.len() as int);
            assert(ws[k].subrange(0, a.len() as int) =~= a);
            assert(s[q + a.len()] == ws[k][a.len() as int]);
            crate::strings::lemma_astring_round_trip(v[k].0, s, q);
            crate::chars::lemma_part(s, q, ws[k], a.len() as int + 1, m.len() as int);
            assert(ws[k].subrange(a.len() as int + 1, ws[k].len() as int) =~= m);
            crate::strings::lemma_atom_round_trip(m, s, q + a.len() + 1);
        }
    }
    crate::rule::lemma_preceded_round_trip(UrlRumpRule, v, ws, s, i + 10, SP, after);
}

/// Whether a `RESETKEY` command can be written and read back: mechanisms
/// are only named after a mailbox, and each is an atom.
pub open spec fn writable_resetkey(m: Option<MailboxV>, ms: Seq<Seq<u8>>) -> bool {
    match m {
        Some(m) => crate::mailbox::writable_mailbox(m) && crate::strings::writable_atoms(ms),
        None => ms.len() == 0,
    }
}

/// A `RESETKEY` command, written at `i` and followed by CR, reads back.
pub proof fn lemma_resetkey_round_trip(m: Option<MailboxV>, ms: Seq<Seq<u8>>, s: Seq<u8>, i: int)
    requires
        writable_resetkey(m, ms),
        0 <= i,
        i + spec_write_resetkey(m, ms).len() < s.len(),
        s.subrange(i, i + spec_write_resetkey(m, ms).len()) == spec_write_resetkey(m, ms),
        s[i + spec_write_resetkey(m, ms).len()] == CR,
    ensures
        spec_resetkey(s, i) == Some(((m, ms), i + spec_write_resetkey(m, ms).len())),
{
    reveal(spec_resetkey);
    let w = spec_write_resetkey(m, ms);
    crate::chars::lemma_part(s, i, w, 0, 8);
    assert(w.subrange(0, 8) =~= RESETKEY@);
    crate::chars::lemma_keyword_at(s, i, RESETKEY@);
    match m {
        Some(mm) => {
            let wm = spec_write_mailbox(mm);
            let pw = prefixed(written(AtomWriter, ms), seq![SP]);
            assert(s[i + 8] == w[8]);
            crate::chars::lemma_part(s, i, w, 9, wm.len() as int);
            assert(w.subrange(9, 9 + wm.len() as int) =~= wm);
            let j = i + 9 + wm.len();
            crate::chars::lemma_part(s, i, w, 9 + wm.len() as int, pw.len() as int);
            assert(w.subrange(9 + wm.len() as int, w.len() as int) =~= pw);
            if ms.len() > 0 {
                crate::rule::lemma_prefixed_front(written(AtomWriter, ms), seq![SP]);
                assert(s[j] == pw[0]);
            }
            crate::mailbox::lemma_mailbox_round_trip(mm, s, i + 9);
            let ws = written(AtomWriter, ms);
            let after = |b: u8| b == SP || b == CR;
            assert forall|k: int, q: int| 0 <= k < ms.len() implies #[trigger] crate::rule::reads_at(AtomRule, s, q, ms[k], ws[k], after) by {
                assert(ws[k] == ms[k]);
                if 0 <= q && q + ws[k].len() < s.len() && s.subrange(q, q + ws[k].len()) == ws[k] && after(s[q + ws[k].len()]) {
                    crate::strings::lemma_atom_round_trip(ms[k], s, q);
                }
            }
            crate::rule::lemma_preceded_round_trip(AtomRule, ms, ws, s, j, SP, after);
        },
        None => {
            assert(w.len() == 8);
        },
    }
}

/// Whether a `URLFETCH` argument can be written and read back.
pub open spec fn writable_url_fetch_arg(a: UrlFetchArgV) -> bool {
    &&& crate::strings::writable_str(a.url)
    &&& (a.params matches Some(ps) ==> crate::strings::writable_atoms(ps))
}

/// A `URLFETCH` argument, written at `i` and followed by a space or CR,
/// reads back.
pub proof fn lemma_url_fetch_arg_round_trip(a: UrlFetchArgV, s: Seq<u8>, i: int)
    requires
        writable_url_fetch_arg(a),
        0 <= i,
        i + spec_write_url_fetch_arg(a).len() < s.len(),
        s.subrange(i, i + spec_write_url_fetch_arg(a).len()) == spec_write_url_fetch_arg(a),
        s[i + spec_write_url_fetch_arg(a).len()] == SP || s[i + spec_write_url_fetch_arg(a).len()] == CR,
    ensures
        spec_url_fetch_arg(s, i) == Some((a, i + spec_write_url_fetch_arg(a).len())),
{
    let w = spec_write_url_fetch_arg(a);
    let wu = spec_write_str(a.url);
    assert(s[i] == w[0]);
    match a.params {
        None => {
            assert(w == wu);
            match a.url.kind {
                crate::strings::StrKind::Atom => {
                    assert(ByteClass::AString.spec_has(a.url.bytes[0]));
                },
                _ => {},
            }
            crate::strings::lemma_astring_round_trip(a.url, s, i);
        },
        Some(ps) => {
            let pw = prefixed(written(AtomWriter, ps), seq![SP]);
            crate::chars::lemma_part(s, i, w, 1, wu.len() as int);
            assert(w.subrange(1, 1 + wu.len() as int) =~= wu);
            let j = i + 1 + wu.len();
            crate::chars::lemma_part(s, i, w, 1 + wu.len() as int, pw.len() as int);
            assert(w.subrange(1 + wu.len() as int, 1 + wu.len() + pw.len() as int) =~= pw);
            if ps.len() > 0 {
                crate::rule::lemma_prefixed_front(written(AtomWriter, ps), seq![SP]);
                assert(s[j] == pw[0]);
            } else {
                assert(s[j] == w[1 + wu.len() as int]);
            }
            crate::strings::lemma_astring_round_trip(a.url, s, i + 1);
            let ws = written(AtomWriter, ps);
            let after = |b: u8| b == SP || b == RPAREN;
            assert forall|k: int, q: int| 0 <= k < ps.len() implies #[trigger] crate::rule::reads_at(AtomRule, s, q, ps[k], ws[k], after) by {
                assert(ws[k] == ps[k]);
                if 0 <= q && q + ws[k].len() < s.len() && s.subrange(q, q + ws[k].len()) == ws[k] && after(s[q + ws[k].len()]) {
                    crate::strings::lemma_atom_round_trip(ps[k], s, q);
                }
            }
            assert(s[j + pw.len()] == w[w.len() - 1]);
            crate::rule::lemma_preceded_round_trip(AtomRule, ps, ws, s, j, SP, after);
        },
    }
}

/// Whether every `URLFETCH` argument can be written and read back.
pub open spec fn writable_url_fetch_args(v: Seq<UrlFetchArgV>) -> bool {
    forall|k: int| 0 <= k < v.len() ==> writable_url_fetch_arg(#[trigger] v[k])
}

/// A `URLFETCH` command, written at `i` and followed by CR, reads back.
pub proof fn lemma_urlfetch_round_trip(v: Seq<UrlFetchArgV>, s: Seq<u8>, i: int)
    requires
        v.len() > 0,
        writable_url_fetch_args(v),
        0 <= i,
        i + spec_write_urlfetch(v).len() < s.len(),
        s.subrange(i, i + spec_write_urlfetch(v).len()) == spec_write_urlfetch(v),
        s[i + spec_write_urlfetch(v).len()] == CR,
    ensures
        spec_urlfetch(s, i) == Some((v, i + spec_write_urlfetch(v).len())),
{
    reveal(spec_urlfetch);
    let w = spec_write_urlfetch(v);
    let ws = written(UrlFetchArgWriter, v);
    let pw = prefixed(ws, seq![SP]);
    let after = |b: u8| b == SP || b == CR;
    crate::chars::lemma_part(s, i, w, 0, 8);
    assert(w.subrange(0, 8) =~= URLFETCH@);
    crate::chars::lemma_keyword_at(s, i, URLFETCH@);
    crate::chars::lemma_part(s, i, w, 8, pw.len() as int);
    assert(w.subrange(8, w.len() as int) =~= pw);
    assert forall|k: int, q: int| 0 <= k < v.len() implies #[trigger] crate::rule::reads_at(UrlFetchArgRule, s, q, v[k], ws[k], after) by {
        assert(ws[k] == spec_write_url_fetch_arg(v[k]));
        if 0 <= q && q + ws[k].len() < s.len() && s.subrange(q, q + ws[k].len()) == ws[k] && after(s[q + ws[k].len()]) {
            lemma_url_fetch_arg_round_trip(v[k], s, q);
        }
    }
    crate::rule::lemma_preceded_round_trip(UrlFetchArgRule, v, ws, s, i + 8, SP, after);
}

} // verus!

verus! {

/// Whether a key can be written and read back: base64 characters and at
/// most two `=` of padding after them.
pub open spec fn writable_key(k: Seq<u8>) -> bool {
    let n = scan_end(k, 0, ByteClass::Base64);
    &&& k.len() - n <= 2
    &&& forall|q: int| n <= q < k.len() ==> #[trigger] k[q] == EQUALS
}

/// Whether a mechanism and its key can be written and read back.
pub open spec fn writable_mechanism(v: (Seq<u8>, Option<Seq<u8>>)) -> bool {
    &&& v.0.len() > 0
    &&& all_in(v.0, ByteClass::Mechanism)
    &&& v.1 matches Some(k) ==> writable_key(k)
}

/// A mechanism and its key, written at `i` and followed by a space or
/// `]`, read back.
#[verifier::rlimit(100)]
#[verifier::spinoff_prover]
pub proof fn lemma_mechanism_round_trip(v: (Seq<u8>, Option<Seq<u8>>), s: Seq<u8>, i: int)
    requires
        writable_mechanism(v),
        0 <= i,
        i + MechanismWriter.spec_write(v).len() < s.len(),
        s.subrange(i, i + MechanismWriter.spec_write(v).len()) == MechanismWriter.spec_write(v),
        s[i + MechanismWriter.spec_write(v).len()] == SP || s[i + MechanismWriter.spec_write(v).len()] == 93,
    ensures
        spec_mechanism(s, i) == Some((v, i + MechanismWriter.spec_write(v).len())),
{
    let w = MechanismWriter.spec_write(v);
    let m = v.0;
    let e = i + m.len();
    let n0 = i + w.len();
    assert forall|k: int| 0 <= k < w.len() implies s[i + k] == #[trigger] w[k] by {
        assert(s[i + k] == s.subrange(i, n0)[k]);
    }
    assert forall|q: int| i <= q < e implies ByteClass::Mechanism.spec_has(#[trigger] s[q]) by {
        assert(s[q] == w[q - i]);
        assert(w[q - i] == m[q - i]);
    }
    assert(s[e] == w[m.len() as int] || e == n0);
    crate::chars::lemma_scan_end_of_run(s, i, e, ByteClass::Mechanism);
    assert(s.subrange(i, e) =~= m);
    match v.1 {
        None => {
            assert(w =~= m);
        },
        Some(k) => {
            assert(w =~= m + seq![EQUALS] + k);
            assert(s[e] == w[m.len() as int]);
            let n = scan_end(k, 0, ByteClass::Base64);
            crate::chars::lemma_scan_end(k, 0, ByteClass::Base64);
            let b = e + 1;
            assert forall|q: int| b <= q < b + n implies ByteClass::Base64.spec_has(#[trigger] s[q]) by {
                assert(s[q] == w[q - i]);
                assert(w[q - i] == k[q - b]);
                assert(k[q - b] == k.subrange(0, n)[q - b]);
            }
            if n < k.len() {
                assert(s[b + n] == w[b + n - i]);
                assert(w[b + n - i] == k[n]);
            }
            crate::chars::lemma_scan_end_of_run(s, b, b + n, ByteClass::Base64);
            if k.len() - n == 2 {
                assert(s[b + n] == w[b + n - i] && s[b + n + 1] == w[b + n + 1 - i]);
                assert(w[b + n - i] == k[n] && w[b + n + 1 - i] == k[n + 1]);
                assert(s.subrange(b + n, b + n + 2) =~= EQ2@);
                crate::chars::lemma_keyword_at(s, b + n, EQ2@);
            } else if k.len() - n == 1 {
                assert(s[b + n] == w[b + n - i]);
                assert(w[b + n - i] == k[n]);
                crate::chars::lemma_not_keyword(s, b + n, EQ2@, 1);
            } else {
                crate::chars::lemma_not_keyword(s, b + n, EQ2@, 0);
            }
            assert(s.subrange(b, b + k.len()) =~= k) by {
                assert forall|q: int| 0 <= q < k.len() implies s.subrange(b, b + k.len())[q] == k[q] by {
                    assert(s[b + q] == w[b + q - i]);
                }
            }
        },
    }
}

/// Whether the mechanisms of a `URLMECH` code can be written and read back.
pub open spec fn writable_urlmech(ms: Seq<(Seq<u8>, Option<Seq<u8>>)>) -> bool {
    forall|k: int| 0 <= k < ms.len() ==> writable_mechanism(#[trigger] ms[k])
}

/// The mechanisms of a `URLMECH` code, written at `i` and followed by `]`,
/// read back.
pub proof fn lemma_mechanisms_round_trip(ms: Seq<(Seq<u8>, Option<Seq<u8>>)>, s: Seq<u8>, i: int)
    requires
        writable_urlmech(ms),
        0 <= i,
        i + prefixed(written(MechanismWriter, ms), seq![SP]).len() < s.len(),
        s.subrange(i, i + prefixed(written(MechanismWriter, ms), seq![SP]).len()) == prefixed(written(MechanismWriter, ms), seq![SP]),
        s[i + prefixed(written(MechanismWriter, ms), seq![SP]).len()] == 93,
    ensures
        spec_preceded(MechanismRule, s, i, SP) == (ms, i + prefixed(written(MechanismWriter, ms), seq![SP]).len()),
{
    let ws = written(MechanismWriter, ms);
    let after = |b: u8| b == SP || b == 93;
    assert forall|k: int, q: int| 0 <= k < ms.len() implies #[trigger] crate::rule::reads_at(MechanismRule, s, q, ms[k], ws[k], after) by {
        assert(ws[k] == MechanismWriter.spec_write(ms[k]));
        if 0 <= q && q + ws[k].len() < s.len() && s.subrange(q, q + ws[k].len()) == ws[k] && after(s[q + ws[k].len()]) {
            lemma_mechanism_round_trip(ms[k], s, q);
        }
    }
    crate::rule::lemma_preceded_round_trip(MechanismRule, ms, ws, s, i, SP, after);
}

} // verus!

verus! {

/// Whether a metadata item can be written and read back.
pub open spec fn writable_url_metadata(m: UrlMetadataV) -> bool {
    match m {
        UrlMetadataV::BodyPartStructure(b) => crate::body::writable_body(b),
        UrlMetadataV::Body(n) => crate::strings::writable_nstring(n),
        UrlMetadataV::Binary(NString8V::NString(n)) => crate::strings::writable_nstring(n),
        UrlMetadataV::Binary(NString8V::Literal8(_, d)) => d.len() <= u32::MAX,
    }
}

/// A `literal8` written at `i` reads back.
proof fn lemma_literal8_round_trip(mode: LiteralMode, d: Seq<u8>, s: Seq<u8>, i: int)
    requires
        d.len() <= u32::MAX,
        0 <= i,
        ({
            let w = seq![TILDE, LBRACE] + decimal(d.len()) + (if mode == LiteralMode::NonSync {
                seq![PLUS]
            } else {
                seq![]
            }) + seq![RBRACE, CR, LF] + d;
            &&& i + w.len() <= s.len()
            &&& s.subrange(i, i + w.len()) == w
        }),
    ensures
        spec_literal8(s, i) == Some(((mode, d), i + (seq![TILDE, LBRACE] + decimal(d.len()) + (if mode
            == LiteralMode::NonSync {
            seq![PLUS]
        } else {
            seq![]
        }) + seq![RBRACE, CR, LF] + d).len())),
{
    let n = d.len() as u32;
    let dn = decimal(n as nat);
    let plus: Seq<u8> = if mode == LiteralMode::NonSync { seq![PLUS] } else { seq![] };
    let w = seq![TILDE, LBRACE] + dn + plus + seq![RBRACE, CR, LF] + d;
    let e = i + w.len();
    assert forall|k: int| 0 <= k < w.len() implies s[i + k] == #[trigger] w[k] by {
        assert(s[i + k] == s.subrange(i, e)[k]);
    }
    crate::num::lemma_decimal(n as nat);
    assert(s[i] == w[0] && s[i + 1] == w[1]);
    crate::chars::lemma_part(s, i, w, 2, dn.len() as int);
    assert(w.subrange(2, 2 + dn.len() as int) =~= dn);
    let j = i + 2 + dn.len();
    assert(s[j] == w[2 + dn.len() as int]);
    crate::num::lemma_number_round_trip(n, s, i + 2);
    let k = j + plus.len();
    assert(s[k] == w[k - i]);
    assert(s[k + 1] == w[k + 1 - i]);
    assert(s[k + 2] == w[k + 2 - i]);
    crate::chars::lemma_part(s, i, w, k + 3 - i, d.len() as int);
    assert(w.subrange(k + 3 - i, k + 3 - i + d.len()) =~= d);
    assert(spec_literal_header(s, i + 1) == Some((n, mode, k + 3)));
}

/// A metadata item, written with its parentheses at `i`, reads back.
#[verifier::rlimit(100)]
#[verifier::spinoff_prover]
pub proof fn lemma_url_metadata_round_trip(m: UrlMetadataV, s: Seq<u8>, i: int)
    requires
        writable_url_metadata(m),
        0 <= i,
        i + spec_write_url_metadata(m).len() <= s.len(),
        s.subrange(i, i + spec_write_url_metadata(m).len()) == spec_write_url_metadata(m),
    ensures
        spec_url_metadata_paren(s, i) == Some((m, i + spec_write_url_metadata(m).len())),
{
    let w = spec_write_url_metadata(m);
    let e = i + w.len();
    assert forall|k: int| 0 <= k < w.len() implies s[i + k] == #[trigger] w[k] by {
        assert(s[i + k] == s.subrange(i, e)[k]);
    }
    assert(s[i + 0] == w[0]);
    assert(s[e - 1] == w[w.len() - 1]);
    let b = i + 1;
    match m {
        UrlMetadataV::BodyPartStructure(ts) => {
            let wb = crate::body::spec_write_body(ts);
            crate::chars::lemma_part(s, i, w, 1, 18);
            assert(w.subrange(1, 19) =~= BODYPARTSTRUCTURE_SP@);
            crate::chars::lemma_keyword_at(s, b, BODYPARTSTRUCTURE_SP@);
            crate::chars::lemma_part(s, i, w, 19, wb.len() as int);
            assert(w.subrange(19, 19 + wb.len() as int) =~= wb);
            crate::body::lemma_body_round_trip(ts, s, b + 18);
        },
        UrlMetadataV::Body(n) => {
            let wn = spec_write_nstring(n);
            crate::chars::lemma_part(s, i, w, 1, 5);
            assert(w.subrange(1, 6) =~= BODY_SP@);
            crate::chars::lemma_keyword_at(s, b, BODY_SP@);
            assert(s[b + 4] == w[5]);
            crate::chars::lemma_not_keyword(s, b, BODYPARTSTRUCTURE_SP@, 4);
            crate::chars::lemma_part(s, i, w, 6, wn.len() as int);
            assert(w.subrange(6, 6 + wn.len() as int) =~= wn);
            crate::strings::lemma_nstring_round_trip(n, s, b + 5);
        },
        UrlMetadataV::Binary(x) => {
            crate::chars::lemma_part(s, i, w, 1, 7);
            assert(w.subrange(1, 8) =~= BINARY_SP@);
            crate::chars::lemma_keyword_at(s, b, BINARY_SP@);
            assert(s[b + 1] == w[2]);
            crate::chars::lemma_not_keyword(s, b, BODYPARTSTRUCTURE_SP@, 1);
            crate::chars::lemma_not_keyword(s, b, BODY_SP@, 1);
            match x {
                NString8V::NString(n) => {
                    let wn = spec_write_nstring(n);
                    crate::chars::lemma_part(s, i, w, 8, wn.len() as int);
                    assert(w.subrange(8, 8 + wn.len() as int) =~= wn);
                    crate::strings::lemma_nstring_round_trip(n, s, b + 7);
                },
                NString8V::Literal8(mode, d) => {
                    let wl = seq![TILDE, LBRACE] + decimal(d.len()) + (if mode == LiteralMode::NonSync {
                        seq![PLUS]
                    } else {
                        seq![]
                    }) + seq![RBRACE, CR, LF] + d;
                    crate::chars::lemma_part(s, i, w, 8, wl.len() as int);
                    assert(w.subrange(8, 8 + wl.len() as int) =~= wl);
                    assert(s[b + 7] == w[8]);
                    crate::chars::lemma_not_keyword(s, b + 7, crate::strings::NIL@, 0);
                    assert(spec_nstring(s, b + 7) is None);
                    lemma_literal8_round_trip(mode, d, s, b + 7);
                },
            }
        },
    }
}

} // verus!

verus! {

/// Whether one URL's data can be written and read back.
pub open spec fn writable_url_fetch_data(d: UrlFetchDataV) -> bool {
    &&& crate::strings::writable_str(d.url)
    &&& match d.value {
        UrlFetchValueV::Simple(n) => crate::strings::writable_nstring(n),
        UrlFetchValueV::Metadata(ms) => ms.len() > 0 && forall|k: int| 0 <= k < ms.len()
            ==> writable_url_metadata(#[trigger] ms[k]),
    }
}

/// Metadata items, each written after a space at `i`, and followed by CR or
/// by a space and no `(`, read back.
proof fn lemma_url_metadata_list_round_trip(ms: Seq<UrlMetadataV>, s: Seq<u8>, i: int)
    requires
        forall|k: int| 0 <= k < ms.len() ==> writable_url_metadata(#[trigger] ms[k]),
        0 <= i,
        i + prefixed(written(UrlMetadataWriter, ms), seq![SP]).len() < s.len(),
        s.subrange(i, i + prefixed(written(UrlMetadataWriter, ms), seq![SP]).len()) == prefixed(written(UrlMetadataWriter, ms), seq![SP]),
        s[i + prefixed(written(UrlMetadataWriter, ms), seq![SP]).len()] == CR
            || (s[i + prefixed(written(UrlMetadataWriter, ms), seq![SP]).len()] == SP
            && i + prefixed(written(UrlMetadataWriter, ms), seq![SP]).len() + 1 < s.len()
            && s[i + prefixed(written(UrlMetadataWriter, ms), seq![SP]).len() + 1] != LPAREN),
    ensures
        spec_preceded(UrlMetadataRule, s, i, SP) == (ms, i + prefixed(written(UrlMetadataWriter, ms), seq![SP]).len()),
{
    let ws = written(UrlMetadataWriter, ms);
    let e = i + prefixed(ws, seq![SP]).len();
    let after = |b: u8| b == SP || b == CR;
    assert forall|k: int, q: int| 0 <= k < ms.len() implies #[trigger] crate::rule::reads_at(UrlMetadataRule, s, q, ms[k], ws[k], after) by {
        assert(ws[k] == spec_write_url_metadata(ms[k]));
        if 0 <= q && q + ws[k].len() < s.len() && s.subrange(q, q + ws[k].len()) == ws[k] && after(s[q + ws[k].len()]) {
            lemma_url_metadata_round_trip(ms[k], s, q);
        }
    }
    crate::rule::lemma_preceded_round_trip(UrlMetadataRule, ms, ws, s, i, SP, after);
}

/// One URL's data, written at `i`, and followed by CR or by a space and no
/// `(`, reads back; it does not begin with `(`.
#[verifier::rlimit(100)]
#[verifier::spinoff_prover]
pub proof fn lemma_url_fetch_data_round_trip(d: UrlFetchDataV, s: Seq<u8>, i: int)
    requires
        writable_url_fetch_data(d),
        0 <= i,
        i + spec_write_url_fetch_data(d).len() < s.len(),
        s.subrange(i, i + spec_write_url_fetch_data(d).len()) == spec_write_url_fetch_data(d),
        s[i + spec_write_url_fetch_data(d).len()] == CR || (s[i + spec_write_url_fetch_data(d).len()] == SP
            && i + spec_write_url_fetch_data(d).len() + 1 < s.len()
            && s[i + spec_write_url_fetch_data(d).len() + 1] != LPAREN),
    ensures
        spec_url_fetch_data(s, i) == Some((d, i + spec_write_url_fetch_data(d).len())),
        s[i] != LPAREN,
{
    let w = spec_write_url_fetch_data(d);
    let wu = spec_write_str(d.url);
    let e = i + w.len();
    let j = i + wu.len();
    crate::chars::lemma_part(s, i, w, 0, wu.len() as int);
    assert(w.subrange(0, wu.len() as int) =~= wu);
    let wv = w.subrange(wu.len() as int, w.len() as int);
    crate::chars::lemma_part(s, i, w, wu.len() as int, wv.len() as int);
    match d.value {
        UrlFetchValueV::Simple(n) => {
            let wn = spec_write_nstring(n);
            assert(wv =~= seq![SP] + wn);
            assert(s[j] == s.subrange(j, j + wv.len())[0]);
            crate::chars::lemma_part(s, j, wv, 1, wn.len() as int);
            assert(wv.subrange(1, 1 + wn.len() as int) =~= wn);
            crate::strings::lemma_nstring_round_trip(n, s, j + 1);
        },
        UrlFetchValueV::Metadata(ms) => {
            let pw = prefixed(written(UrlMetadataWriter, ms), seq![SP]);
            assert(wv =~= pw);
            crate::rule::lemma_prefixed_front(written(UrlMetadataWriter, ms), seq![SP]);
            assert(written(UrlMetadataWriter, ms)[0] == spec_write_url_metadata(ms[0]));
            assert(s[j] == pw[0]);
            assert(s[j + 1] == pw[1]);
            assert(pw[1] == LPAREN);
            crate::chars::lemma_not_keyword(s, j + 1, crate::strings::NIL@, 0);
            assert(spec_nstring(s, j + 1) is None);
            lemma_url_metadata_list_round_trip(ms, s, j);
        },
    }
    assert(s[j] == SP);
    assert(!crate::chars::is_astring_char(SP));
    crate::strings::lemma_astring_round_trip(d.url, s, i);
    if d.url.kind == crate::strings::StrKind::Atom {
        assert(wu == d.url.bytes);
        assert(ByteClass::AString.spec_has(d.url.bytes[0]));
        assert(s[i] == wu[0]);
    } else {
        crate::strings::lemma_string_starts(d.url);
        assert(s[i] == wu[0]);
    }
}

/// URLs' data, each written after a space at `i` and followed by CR, read
/// back.
proof fn lemma_url_fetch_data_list_round_trip(v: Seq<UrlFetchDataV>, s: Seq<u8>, i: int)
    requires
        forall|k: int| 0 <= k < v.len() ==> writable_url_fetch_data(#[trigger] v[k]),
        0 <= i,
        i + prefixed(written(UrlFetchDataWriter, v), seq![SP]).len() + 1 < s.len(),
        s.subrange(i, i + prefixed(written(UrlFetchDataWriter, v), seq![SP]).len()) == prefixed(written(UrlFetchDataWriter, v), seq![SP]),
        s[i + prefixed(written(UrlFetchDataWriter, v), seq![SP]).len()] == CR,
    ensures
        spec_preceded(UrlFetchDataRule, s, i, SP) == (v, i + prefixed(written(UrlFetchDataWriter, v), seq![SP]).len()),
        v.len() > 0 ==> s[i] == SP && s[i + 1] != LPAREN,
    decreases v.len(),
{
    let ws = written(UrlFetchDataWriter, v);
    let pw = prefixed(ws, seq![SP]);
    if v.len() == 0 {
        assert(pw == Seq::<u8>::empty());
        assert(v =~= seq![]);
    } else {
        crate::rule::lemma_prefixed_front(ws, seq![SP]);
        let w0 = ws[0];
        let rest_v = v.drop_first();
        let rest_w = ws.drop_first();
        let p2 = prefixed(rest_w, seq![SP]);
        assert(pw =~= seq![SP] + w0 + p2);
        assert(written(UrlFetchDataWriter, rest_v) =~= rest_w);
        assert(w0 == spec_write_url_fetch_data(v[0]));
        assert(s[i] == pw[0]);
        let j = i + 1 + w0.len();
        crate::chars::lemma_part(s, i, pw, 1, w0.len() as int);
        assert(pw.subrange(1, 1 + w0.len() as int) =~= w0);
        crate::chars::lemma_part(s, i, pw, 1 + w0.len() as int, p2.len() as int);
        assert(pw.subrange(1 + w0.len() as int, pw.len() as int) =~= p2);
        assert forall|k: int| 0 <= k < rest_v.len() implies writable_url_fetch_data(#[trigger] rest_v[k]) by {
            assert(rest_v[k] == v[k + 1]);
        }
        lemma_url_fetch_data_list_round_trip(rest_v, s, j);
        if rest_v.len() > 0 {
            crate::rule::lemma_prefixed_front(rest_w, seq![SP]);
            assert(s[j] == p2[0]);
        }
        lemma_url_fetch_data_round_trip(v[0], s, i + 1);
        assert(seq![v[0]] + rest_v =~= v);
    }
}

/// A `URLFETCH` response, from its name on, written at `i` and followed by
/// CR, reads back.
pub proof fn lemma_urlfetch_data_round_trip(v: Seq<UrlFetchDataV>, s: Seq<u8>, i: int)
    requires
        v.len() > 0,
        forall|k: int| 0 <= k < v.len() ==> writable_url_fetch_data(#[trigger] v[k]),
        0 <= i,
        i + spec_write_urlfetch_data(v).len() + 1 < s.len(),
        s.subrange(i, i + spec_write_urlfetch_data(v).len()) == spec_write_urlfetch_data(v),
        s[i + spec_write_urlfetch_data(v).len()] == CR,
    ensures
        spec_urlfetch_data(s, i) == Some((v, i + spec_write_urlfetch_data(v).len())),
{
    let w = spec_write_urlfetch_data(v);
    let pw = prefixed(written(UrlFetchDataWriter, v), seq![SP]);
    crate::chars::lemma_part(s, i, w, 0, 8);
    assert(w.subrange(0, 8) =~= URLFETCH@);
    crate::chars::lemma_keyword_at(s, i, URLFETCH@);
    crate::chars::lemma_part(s, i, w, 8, pw.len() as int);
    assert(w.subrange(8, 8 + pw.len() as int) =~= pw);
    lemma_url_fetch_data_list_round_trip(v, s, i + 8);
}

} // verus!
