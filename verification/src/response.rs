//! Responses: status responses with their codes, the data responses this
//! crate knows, how a response line is read and how it is written.

use vstd::prelude::*;

use crate::chars::{
    all_in, byte, is_quoted_special, is_text_char, keyword, put, spec_byte, spec_keyword, spec_token, token,
    ByteClass, BACKSLASH, CR, DQUOTE, LF, LPAREN, RPAREN, SP,
};
use crate::fetch::{
    spec_flag_list, spec_msg_att, spec_write_flag_list, spec_write_msg_att_item, write_flag_list, Flag, FlagRule,
    FlagV, MessageDataItem, MessageDataItemV, MsgAttItemRule, MsgAttItemWriter,
};
use crate::mailbox::{
    read_mailbox, read_mbox_list_extended, spec_mailbox, spec_mbox_list_extended, spec_write_mailbox,
    spec_write_mbox_list_extended, write_mailbox, write_mbox_list_extended, ListExtendedItem, ListExtendedItemV,
    Mailbox, MailboxV,
};
use crate::notify::{read_bad_event, spec_bad_event, NOTIFICATIONOVERFLOW, BADEVENT_SP_LPAREN};
use crate::num::{decimal, read_number, spec_number, spec_nz_number, write_number, NzNumber, NzNumberRule};
use crate::objectid::{read_objectid, spec_objectid, ObjectId};
use crate::rule::{
    join, prefixed, read_paren_list, read_preceded, read_separated, read_view, spec_paren_list, spec_preceded,
    spec_separated, write_joined, write_prefixed, written, Rule, Writer,
};
use crate::search_return::{
    read_esearch_response, spec_esearch_response, spec_write_esearch_response, write_esearch_response,
    EsearchResponse, EsearchResponseV,
};
use crate::status::{StatusAttValRule, StatusAttValWriter, StatusDataItem, StatusDataItemV};
use crate::strings::{read_atom, read_tag, spec_atom, spec_tag, AStringRule, Atom, AtomRule, StrV, Tag, NIL};
use crate::urlauth::{
    read_urlmech, spec_urlmech, spec_write_urlmech, write_urlmech, AStringWriter, AtomWriter, UrlMechanism,
    URLMECH_SP_INTERNAL,
};
use crate::vec1::Vec1;

verus! {

broadcast use NzNumber::lemma_view_is_value;

/// `OK`
pub const OK: [u8; 2] = [79, 75];
/// `NO`
pub const NO: [u8; 2] = [78, 79];
/// `BAD`
pub const BAD: [u8; 3] = [66, 65, 68];
/// `BYE `
pub const BYE_SP: [u8; 4] = [66, 89, 69, 32];
/// `ALERT`
pub const ALERT: [u8; 5] = [65, 76, 69, 82, 84];
/// `PARSE`
pub const PARSE: [u8; 5] = [80, 65, 82, 83, 69];
/// `READ-ONLY`
pub const READ_ONLY: [u8; 9] = [82, 69, 65, 68, 45, 79, 78, 76, 89];
/// `READ-WRITE`
pub const READ_WRITE: [u8; 10] = [82, 69, 65, 68, 45, 87, 82, 73, 84, 69];
/// `TRYCREATE`
pub const TRYCREATE: [u8; 9] = [84, 82, 89, 67, 82, 69, 65, 84, 69];
/// `UIDNEXT `
pub const UIDNEXT_SP: [u8; 8] = [85, 73, 68, 78, 69, 88, 84, 32];
/// `UIDVALIDITY `
pub const UIDVALIDITY_SP: [u8; 12] = [85, 73, 68, 86, 65, 76, 73, 68, 73, 84, 89, 32];
/// `UNSEEN `
pub const UNSEEN_SP: [u8; 7] = [85, 78, 83, 69, 69, 78, 32];
/// `NOTSAVED`
pub const NOTSAVED: [u8; 8] = [78, 79, 84, 83, 65, 86, 69, 68];
/// `MAILBOXID `
pub const MAILBOXID_SP: [u8; 10] = [77, 65, 73, 76, 66, 79, 88, 73, 68, 32];
/// `[`
pub const LBRACKET: u8 = 91;
/// `]`
pub const RBRACKET: u8 = 93;
/// `*`
pub const ASTERISK: u8 = 42;

/// A response code: `resp-text-code`, those this crate knows.
#[derive(Debug, PartialEq, Eq, Hash)]
pub enum Code {
    Alert,
    Parse,
    ReadOnly,
    ReadWrite,
    TryCreate,
    UidNext(NzNumber),
    UidValidity(NzNumber),
    Unseen(NzNumber),
    /// `NOTIFICATIONOVERFLOW` (RFC 5465).
    NotificationOverflow,
    /// `BADEVENT` (RFC 5465): the events the server does not support.
    BadEvent(Vec1<Atom>),
    /// `URLMECH INTERNAL` and the mechanisms after it (RFC 4467).
    UrlMech(Vec<UrlMechanism>),
    /// `MAILBOXID (objectid)` (RFC 8474).
    MailboxId(ObjectId),
    /// `NOTSAVED` (RFC 5182): the search result was not saved.
    NotSaved,
}

/// The model of a [`Code`].
pub enum CodeV {
    Alert,
    Parse,
    ReadOnly,
    ReadWrite,
    TryCreate,
    UidNext(u32),
    UidValidity(u32),
    Unseen(u32),
    NotificationOverflow,
    BadEvent(Seq<Seq<u8>>),
    UrlMech(Seq<(Seq<u8>, Option<Seq<u8>>)>),
    MailboxId(Seq<u8>),
    NotSaved,
}

impl DeepView for Code {
    type V = CodeV;

    open spec fn deep_view(&self) -> CodeV {
        match self {
            Code::Alert => CodeV::Alert,
            Code::Parse => CodeV::Parse,
            Code::ReadOnly => CodeV::ReadOnly,
            Code::ReadWrite => CodeV::ReadWrite,
            Code::TryCreate => CodeV::TryCreate,
            Code::UidNext(n) => CodeV::UidNext(n.deep_view()),
            Code::UidValidity(n) => CodeV::UidValidity(n.deep_view()),
            Code::Unseen(n) => CodeV::Unseen(n.deep_view()),
            Code::NotificationOverflow => CodeV::NotificationOverflow,
            Code::BadEvent(e) => CodeV::BadEvent(e.deep_view()),
            Code::UrlMech(m) => CodeV::UrlMech(m.deep_view()),
            Code::MailboxId(o) => CodeV::MailboxId(o.deep_view()),
            Code::NotSaved => CodeV::NotSaved,
        }
    }
}

/// `resp-text-code`: the codes in the order they are tried.
pub open spec fn spec_code(s: Seq<u8>, i: int) -> Option<(CodeV, int)> {
    let r = crate::search::flag(s, i, ALERT@, CodeV::Alert);
    let r = crate::search::alt(r, crate::search::flag(s, i, PARSE@, CodeV::Parse));
    let r = crate::search::alt(r, crate::search::flag(s, i, READ_ONLY@, CodeV::ReadOnly));
    let r = crate::search::alt(r, crate::search::flag(s, i, READ_WRITE@, CodeV::ReadWrite));
    let r = crate::search::alt(r, crate::search::flag(s, i, TRYCREATE@, CodeV::TryCreate));
    let r = crate::search::alt(r, crate::search::map_value(crate::search::after_keyword(s, i, UIDNEXT_SP@, |j: int| spec_nz_number(s, j)), |x: u32| CodeV::UidNext(x)));
    let r = crate::search::alt(r, crate::search::map_value(crate::search::after_keyword(s, i, UIDVALIDITY_SP@, |j: int| spec_nz_number(s, j)), |x: u32| CodeV::UidValidity(x)));
    let r = crate::search::alt(r, crate::search::map_value(crate::search::after_keyword(s, i, UNSEEN_SP@, |j: int| spec_nz_number(s, j)), |x: u32| CodeV::Unseen(x)));
    let r = crate::search::alt(r, crate::search::flag(s, i, NOTIFICATIONOVERFLOW@, CodeV::NotificationOverflow));
    let r = crate::search::alt(r, crate::search::map_value(spec_bad_event(s, i), |x: Seq<Seq<u8>>| CodeV::BadEvent(x)));
    let r = crate::search::alt(r, crate::search::map_value(spec_urlmech(s, i), |x: Seq<(Seq<u8>, Option<Seq<u8>>)>| CodeV::UrlMech(x)));
    let r = crate::search::alt(r, crate::search::map_value(crate::search::after_keyword(s, i, MAILBOXID_SP@, |j: int| crate::fetch::spec_paren_objectid(s, j)), |x: Seq<u8>| CodeV::MailboxId(x)));
    crate::search::alt(r, crate::search::flag(s, i, NOTSAVED@, CodeV::NotSaved))
}

/// Reads a `resp-text-code` at `i`.
pub fn read_code(s: &[u8], i: usize) -> (r: Option<(Code, usize)>)
    requires
        i <= s@.len(),
    ensures
        read_view(r) == spec_code(s@, i as int),
        r matches Some((_, j)) ==> i < j <= s@.len(),
{
    if keyword(s, i, ALERT.as_slice()) {
        return Some((Code::Alert, i + 5));
    }
    if keyword(s, i, PARSE.as_slice()) {
        return Some((Code::Parse, i + 5));
    }
    if keyword(s, i, READ_ONLY.as_slice()) {
        return Some((Code::ReadOnly, i + 9));
    }
    if keyword(s, i, READ_WRITE.as_slice()) {
        return Some((Code::ReadWrite, i + 10));
    }
    if keyword(s, i, TRYCREATE.as_slice()) {
        return Some((Code::TryCreate, i + 9));
    }
    if keyword(s, i, UIDNEXT_SP.as_slice()) {
        if let Some((n, j)) = NzNumberRule.read(s, i + 8) {
            return Some((Code::UidNext(n), j));
        }
    }
    if keyword(s, i, UIDVALIDITY_SP.as_slice()) {
        if let Some((n, j)) = NzNumberRule.read(s, i + 12) {
            return Some((Code::UidValidity(n), j));
        }
    }
    if keyword(s, i, UNSEEN_SP.as_slice()) {
        if let Some((n, j)) = NzNumberRule.read(s, i + 7) {
            return Some((Code::Unseen(n), j));
        }
    }
    if keyword(s, i, NOTIFICATIONOVERFLOW.as_slice()) {
        return Some((Code::NotificationOverflow, i + 20));
    }
    if let Some((e, j)) = read_bad_event(s, i) {
        return Some((Code::BadEvent(e), j));
    }
    if let Some((m, j)) = read_urlmech(s, i) {
        return Some((Code::UrlMech(m), j));
    }
    if keyword(s, i, MAILBOXID_SP.as_slice()) {
        if let Some((o, j)) = crate::fetch::read_paren_objectid(s, i + 10) {
            return Some((Code::MailboxId(o), j));
        }
    }
    if keyword(s, i, NOTSAVED.as_slice()) {
        return Some((Code::NotSaved, i + 8));
    }
    None
}

/// How a code is written.
pub open spec fn spec_write_code(c: CodeV) -> Seq<u8> {
    match c {
        CodeV::Alert => ALERT@,
        CodeV::Parse => PARSE@,
        CodeV::ReadOnly => READ_ONLY@,
        CodeV::ReadWrite => READ_WRITE@,
        CodeV::TryCreate => TRYCREATE@,
        CodeV::UidNext(n) => UIDNEXT_SP@ + decimal(n as nat),
        CodeV::UidValidity(n) => UIDVALIDITY_SP@ + decimal(n as nat),
        CodeV::Unseen(n) => UNSEEN_SP@ + decimal(n as nat),
        CodeV::NotificationOverflow => NOTIFICATIONOVERFLOW@,
        CodeV::BadEvent(e) => BADEVENT_SP_LPAREN@ + join(written(AtomWriter, e), seq![SP]) + seq![RPAREN],
        CodeV::UrlMech(m) => spec_write_urlmech(m),
        CodeV::MailboxId(o) => MAILBOXID_SP@ + seq![LPAREN] + o + seq![RPAREN],
        CodeV::NotSaved => NOTSAVED@,
    }
}

/// Writes a code.
pub fn write_code(out: &mut Vec<u8>, c: &Code)
    ensures
        final(out)@ == old(out)@ + spec_write_code(c.deep_view()),
{
    let ghost start = old(out)@;
    match c {
        Code::Alert => put(out, ALERT.as_slice()),
        Code::Parse => put(out, PARSE.as_slice()),
        Code::ReadOnly => put(out, READ_ONLY.as_slice()),
        Code::ReadWrite => put(out, READ_WRITE.as_slice()),
        Code::TryCreate => put(out, TRYCREATE.as_slice()),
        Code::UidNext(n) => {
            put(out, UIDNEXT_SP.as_slice());
            write_number(out, n.get());
        },
        Code::UidValidity(n) => {
            put(out, UIDVALIDITY_SP.as_slice());
            write_number(out, n.get());
        },
        Code::Unseen(n) => {
            put(out, UNSEEN_SP.as_slice());
            write_number(out, n.get());
        },
        Code::NotificationOverflow => put(out, NOTIFICATIONOVERFLOW.as_slice()),
        Code::BadEvent(e) => {
            put(out, BADEVENT_SP_LPAREN.as_slice());
            let sp = [SP];
            write_joined(&AtomWriter, out, e.as_slice_dv(), sp.as_slice());
            out.push(RPAREN);
            assert(sp@ =~= seq![SP]);
        },
        Code::UrlMech(m) => write_urlmech(out, m),
        Code::MailboxId(o) => {
            put(out, MAILBOXID_SP.as_slice());
            out.push(LPAREN);
            put(out, o.inner());
            out.push(RPAREN);
        },
        Code::NotSaved => put(out, NOTSAVED.as_slice()),
    }
    assert(out@ =~= start + spec_write_code(c.deep_view()));
}

// ---------------------------------------------------------------------
// Status responses.

/// The human-readable text of a response: `text = 1*TEXT-CHAR`.
#[derive(Debug, PartialEq, Eq, Hash)]
pub struct Text(Vec<u8>);

impl Text {
    #[verifier::type_invariant]
    spec fn inv(self) -> bool {
        self.0@.len() > 0 && all_in(self.0@, ByteClass::Text)
    }

    /// The text of these bytes, or `None` where they are empty or hold a
    /// byte that is not `TEXT-CHAR`.
    pub fn try_from_bytes(b: &[u8]) -> (r: Option<Text>)
        ensures
            r is Some <==> b@.len() > 0 && all_in(b@, ByteClass::Text),
            r matches Some(t) ==> t.deep_view() == b@,
    {
        if b.len() > 0 && crate::chars::first_outside(b, ByteClass::Text).is_none() {
            Some(Text(crate::chars::copy_of(b)))
        } else {
            None
        }
    }

    /// The bytes.
    pub fn as_bytes(&self) -> (r: &[u8])
        ensures
            r@ == self.deep_view(),
    {
        self.0.as_slice()
    }
}

impl DeepView for Text {
    type V = Seq<u8>;

    closed spec fn deep_view(&self) -> Seq<u8> {
        self.0@
    }
}

/// `text = 1*TEXT-CHAR`
pub open spec fn spec_text(s: Seq<u8>, i: int) -> Option<(Seq<u8>, int)> {
    match spec_token(s, i, ByteClass::Text) {
        Some(e) => Some((s.subrange(i, e), e)),
        None => None,
    }
}

fn read_text(s: &[u8], i: usize) -> (r: Option<(Text, usize)>)
    requires
        i <= s@.len(),
    ensures
        read_view(r) == spec_text(s@, i as int),
        r matches Some((_, j)) ==> i < j <= s@.len(),
{
    match token(s, i, ByteClass::Text) {
        Some(e) => {
            proof {
                crate::chars::lemma_scan_end(s@, i as int, ByteClass::Text);
            }
            Some((Text(crate::chars::copy_of(&s[i..e])), e))
        },
        None => None,
    }
}

/// `OK`, `NO` or `BAD`.
#[derive(Clone, Copy, Debug, PartialEq, Eq, Hash, Structural)]
pub enum StatusKind {
    Okay,
    No,
    Bad,
}

impl DeepView for StatusKind {
    type V = StatusKind;

    open spec fn deep_view(&self) -> StatusKind {
        *self
    }
}

/// What a status response says: `resp-cond-state` or `resp-cond-bye`,
/// without the word.
#[derive(Debug, PartialEq, Eq, Hash)]
pub struct StatusBody {
    pub kind: StatusKind,
    pub code: Option<Code>,
    pub text: Text,
}

/// The model of a [`StatusBody`].
pub struct StatusBodyV {
    pub kind: StatusKind,
    pub code: Option<CodeV>,
    pub text: Seq<u8>,
}

impl DeepView for StatusBody {
    type V = StatusBodyV;

    open spec fn deep_view(&self) -> StatusBodyV {
        StatusBodyV { kind: self.kind, code: self.code.deep_view(), text: self.text.deep_view() }
    }
}

/// A status response.
#[derive(Debug, PartialEq, Eq, Hash)]
pub enum Status {
    /// `"*" SP resp-cond-state`
    Untagged(StatusBody),
    /// `tag SP resp-cond-state`
    Tagged(Tag, StatusBody),
    /// `"*" SP "BYE" SP resp-text`
    Bye(Option<Code>, Text),
}

/// The model of a [`Status`].
pub enum StatusV {
    Untagged(StatusBodyV),
    Tagged(Seq<u8>, StatusBodyV),
    Bye(Option<CodeV>, Seq<u8>),
}

impl DeepView for Status {
    type V = StatusV;

    open spec fn deep_view(&self) -> StatusV {
        match self {
            Status::Untagged(b) => StatusV::Untagged(b.deep_view()),
            Status::Tagged(t, b) => StatusV::Tagged(t.deep_view(), b.deep_view()),
            Status::Bye(c, t) => StatusV::Bye(c.deep_view(), t.deep_view()),
        }
    }
}

/// `resp-text = ["[" resp-text-code "]" SP] text`
pub open spec fn spec_resp_text(s: Seq<u8>, i: int) -> Option<((Option<CodeV>, Seq<u8>), int)> {
    let (code, j) = if spec_byte(s, i, LBRACKET) {
        match spec_code(s, i + 1) {
            Some((c, k)) => if spec_byte(s, k, RBRACKET) && spec_byte(s, k + 1, SP) {
                (Some(c), k + 2)
            } else {
                (None, i)
            },
            None => (None, i),
        }
    } else {
        (None, i)
    };
    match spec_text(s, j) {
        Some((t, k)) => Some(((code, t), k)),
        None => None,
    }
}

fn read_resp_text(s: &[u8], i: usize) -> (r: Option<((Option<Code>, Text), usize)>)
    requires
        i <= s@.len(),
    ensures
        read_view(r) == spec_resp_text(s@, i as int),
        r matches Some((_, j)) ==> i < j <= s@.len(),
{
    let mut code: Option<Code> = None;
    let mut j = i;
    if byte(s, i, LBRACKET) {
        if let Some((c, k)) = read_code(s, i + 1) {
            if byte(s, k, RBRACKET) && byte(s, k + 1, SP) {
                code = Some(c);
                j = k + 2;
            }
        }
    }
    match read_text(s, j) {
        Some((t, k)) => Some(((code, t), k)),
        None => None,
    }
}

/// `resp-cond-state = ("OK" / "NO" / "BAD") SP resp-text`
pub open spec fn spec_cond_state(s: Seq<u8>, i: int) -> Option<(StatusBodyV, int)> {
    let (kind, j) = if spec_keyword(s, i, OK@) {
        (Some(StatusKind::Okay), i + 2)
    } else if spec_keyword(s, i, NO@) {
        (Some(StatusKind::No), i + 2)
    } else if spec_keyword(s, i, BAD@) {
        (Some(StatusKind::Bad), i + 3)
    } else {
        (None, i)
    };
    match kind {
        Some(kind) => if spec_byte(s, j, SP) {
            match spec_resp_text(s, j + 1) {
                Some(((code, text), k)) => Some((StatusBodyV { kind, code, text }, k)),
                None => None,
            }
        } else {
            None
        },
        None => None,
    }
}

fn read_cond_state(s: &[u8], i: usize) -> (r: Option<(StatusBody, usize)>)
    requires
        i <= s@.len(),
    ensures
        read_view(r) == spec_cond_state(s@, i as int),
        r matches Some((_, j)) ==> i < j <= s@.len(),
{
    let (kind, j) = if keyword(s, i, OK.as_slice()) {
        (StatusKind::Okay, i + 2)
    } else if keyword(s, i, NO.as_slice()) {
        (StatusKind::No, i + 2)
    } else if keyword(s, i, BAD.as_slice()) {
        (StatusKind::Bad, i + 3)
    } else {
        return None;
    };
    if !byte(s, j, SP) {
        return None;
    }
    match read_resp_text(s, j + 1) {
        Some(((code, text), k)) => Some((StatusBody { kind, code, text }, k)),
        None => None,
    }
}

/// The word of a status response.
pub open spec fn spec_kind_name(k: StatusKind) -> Seq<u8> {
    match k {
        StatusKind::Okay => OK@,
        StatusKind::No => NO@,
        StatusKind::Bad => BAD@,
    }
}

/// How `resp-text` is written.
pub open spec fn spec_write_resp_text(code: Option<CodeV>, text: Seq<u8>) -> Seq<u8> {
    (match code {
        Some(c) => seq![LBRACKET] + spec_write_code(c) + seq![RBRACKET, SP],
        None => seq![],
    }) + text
}

fn write_resp_text(out: &mut Vec<u8>, code: &Option<Code>, text: &Text)
    ensures
        final(out)@ == old(out)@ + spec_write_resp_text(code.deep_view(), text.deep_view()),
{
    let ghost start = old(out)@;
    match code {
        Some(c) => {
            out.push(LBRACKET);
            write_code(out, c);
            out.push(RBRACKET);
            out.push(SP);
        },
        None => {},
    }
    put(out, text.as_bytes());
    assert(out@ =~= start + spec_write_resp_text(code.deep_view(), text.deep_view()));
}

/// How a status body is written.
pub open spec fn spec_write_status_body(b: StatusBodyV) -> Seq<u8> {
    spec_kind_name(b.kind) + seq![SP] + spec_write_resp_text(b.code, b.text)
}

fn write_status_body(out: &mut Vec<u8>, b: &StatusBody)
    ensures
        final(out)@ == old(out)@ + spec_write_status_body(b.deep_view()),
{
    let ghost start = old(out)@;
    match b.kind {
        StatusKind::Okay => put(out, OK.as_slice()),
        StatusKind::No => put(out, NO.as_slice()),
        StatusKind::Bad => put(out, BAD.as_slice()),
    }
    out.push(SP);
    write_resp_text(out, &b.code, &b.text);
    assert(out@ =~= start + spec_write_status_body(b.deep_view()));
}

} // verus!

verus! {

// ---------------------------------------------------------------------
// Data responses.

/// `CAPABILITY`
pub const CAPABILITY: [u8; 10] = [67, 65, 80, 65, 66, 73, 76, 73, 84, 89];
/// `LIST `
pub const LIST_SP: [u8; 5] = [76, 73, 83, 84, 32];
/// `LSUB `
pub const LSUB_SP: [u8; 5] = [76, 83, 85, 66, 32];
/// `FLAGS `
pub const FLAGS_SP: [u8; 6] = [70, 76, 65, 71, 83, 32];
/// `SORT`
pub const SORT: [u8; 4] = [83, 79, 82, 84];
/// `STATUS`
pub const STATUS_W: [u8; 6] = [83, 84, 65, 84, 85, 83];
/// ` EXISTS`
pub const SP_EXISTS: [u8; 7] = [32, 69, 88, 73, 83, 84, 83];
/// ` RECENT`
pub const SP_RECENT: [u8; 7] = [32, 82, 69, 67, 69, 78, 84];
/// `EXPUNGE`
pub const EXPUNGE: [u8; 7] = [69, 88, 80, 85, 78, 71, 69];
/// `FETCH `
pub const FETCH_SP: [u8; 6] = [70, 69, 84, 67, 72, 32];

/// A data response: what follows `"*" SP`, those this crate knows.
#[derive(Debug, PartialEq, Eq, Hash)]
pub enum Data {
    /// `CAPABILITY`, each capability as written.
    Capability(Vec1<Atom>),
    /// `LIST`: name attributes (without their backslash), the hierarchy
    /// delimiter (a `QUOTED-CHAR`) or `None` for `NIL`, the mailbox, and
    /// the extended items of RFC 5258.
    List { items: Vec<Atom>, delimiter: Option<u8>, mailbox: Mailbox, extended: Vec<ListExtendedItem> },
    /// `LSUB`.
    Lsub { items: Vec<Atom>, delimiter: Option<u8>, mailbox: Mailbox },
    /// `FLAGS`.
    Flags(Vec<Flag>),
    /// `SEARCH`.
    Search(Vec<NzNumber>),
    /// `SORT` (RFC 5256).
    Sort(Vec<NzNumber>),
    /// `ESEARCH` (RFC 4731).
    ESearch(EsearchResponse),
    /// `STATUS`.
    Status { mailbox: Mailbox, items: Vec<StatusDataItem> },
    /// `n EXISTS`.
    Exists(u32),
    /// `n RECENT`.
    Recent(u32),
    /// `n EXPUNGE`.
    Expunge(NzNumber),
    /// `n FETCH (...)`.
    Fetch { seq: NzNumber, items: Vec1<MessageDataItem> },
    /// `ACL` (RFC 4314): identifiers and their rights.
    Acl { mailbox: Mailbox, entries: Vec<(crate::strings::AString, crate::strings::AString)> },
    /// `LISTRIGHTS` (RFC 4314).
    ListRights {
        mailbox: Mailbox,
        identifier: crate::strings::AString,
        required: crate::strings::AString,
        optional: Vec<crate::strings::AString>,
    },
    /// `MYRIGHTS` (RFC 4314).
    MyRights { mailbox: Mailbox, rights: crate::strings::AString },
    /// `GENURLAUTH` (RFC 4467).
    GenUrlAuth { urls: Vec1<crate::strings::AString> },
    /// `URLFETCH` (RFC 4467, RFC 5524).
    UrlFetch { items: Vec1<crate::urlauth::UrlFetchData> },
}

/// The model of a [`Data`] response.
pub enum DataV {
    Capability(Seq<Seq<u8>>),
    List { items: Seq<Seq<u8>>, delimiter: Option<u8>, mailbox: MailboxV, extended: Seq<ListExtendedItemV> },
    Lsub { items: Seq<Seq<u8>>, delimiter: Option<u8>, mailbox: MailboxV },
    Flags(Seq<FlagV>),
    Search(Seq<u32>),
    Sort(Seq<u32>),
    ESearch(EsearchResponseV),
    Status { mailbox: MailboxV, items: Seq<StatusDataItemV> },
    Exists(u32),
    Recent(u32),
    Expunge(u32),
    Fetch { seq: u32, items: Seq<MessageDataItemV> },
    Acl { mailbox: MailboxV, entries: Seq<(StrV, StrV)> },
    ListRights { mailbox: MailboxV, identifier: StrV, required: StrV, optional: Seq<StrV> },
    MyRights { mailbox: MailboxV, rights: StrV },
    GenUrlAuth { urls: Seq<StrV> },
    UrlFetch { items: Seq<crate::urlauth::UrlFetchDataV> },
}

impl DeepView for Data {
    type V = DataV;

    open spec fn deep_view(&self) -> DataV {
        match self {
            Data::Capability(c) => DataV::Capability(c.deep_view()),
            Data::List { items, delimiter, mailbox, extended } => DataV::List {
                items: items.deep_view(),
                delimiter: *delimiter,
                mailbox: mailbox.deep_view(),
                extended: extended.deep_view(),
            },
            Data::Lsub { items, delimiter, mailbox } => DataV::Lsub {
                items: items.deep_view(),
                delimiter: *delimiter,
                mailbox: mailbox.deep_view(),
            },
            Data::Flags(f) => DataV::Flags(f.deep_view()),
            Data::Search(n) => DataV::Search(n.deep_view()),
            Data::Sort(n) => DataV::Sort(n.deep_view()),
            Data::ESearch(e) => DataV::ESearch(e.deep_view()),
            Data::Status { mailbox, items } => DataV::Status { mailbox: mailbox.deep_view(), items: items.deep_view() },
            Data::Exists(n) => DataV::Exists(*n),
            Data::Recent(n) => DataV::Recent(*n),
            Data::Expunge(n) => DataV::Expunge(n.deep_view()),
            Data::Fetch { seq, items } => DataV::Fetch { seq: seq.deep_view(), items: items.deep_view() },
            Data::Acl { mailbox, entries } => DataV::Acl { mailbox: mailbox.deep_view(), entries: entries.deep_view() },
            Data::ListRights { mailbox, identifier, required, optional } => DataV::ListRights {
                mailbox: mailbox.deep_view(),
                identifier: identifier.deep_view(),
                required: required.deep_view(),
                optional: optional.deep_view(),
            },
            Data::MyRights { mailbox, rights } => DataV::MyRights { mailbox: mailbox.deep_view(), rights: rights.deep_view() },
            Data::GenUrlAuth { urls } => DataV::GenUrlAuth { urls: urls.deep_view() },
            Data::UrlFetch { items } => DataV::UrlFetch { items: items.deep_view() },
        }
    }
}

/// A response.
#[derive(Debug, PartialEq, Eq, Hash)]
pub enum Response {
    Status(Status),
    Data(Data),
}

/// The model of a [`Response`].
pub enum ResponseV {
    Status(StatusV),
    Data(DataV),
}

impl DeepView for Response {
    type V = ResponseV;

    open spec fn deep_view(&self) -> ResponseV {
        match self {
            Response::Status(s) => ResponseV::Status(s.deep_view()),
            Response::Data(d) => ResponseV::Data(d.deep_view()),
        }
    }
}

/// A name attribute: `"\" atom`, the atom without its backslash.
pub open spec fn spec_name_attr(s: Seq<u8>, i: int) -> Option<(Seq<u8>, int)> {
    if spec_byte(s, i, BACKSLASH) {
        spec_atom(s, i + 1)
    } else {
        None
    }
}

/// The rule for a name attribute.
pub struct NameAttrRule;

impl Rule for NameAttrRule {
    type Out = Atom;

    open spec fn spec_read(&self, s: Seq<u8>, i: int) -> Option<(Seq<u8>, int)> {
        spec_name_attr(s, i)
    }

    fn read(&self, s: &[u8], i: usize) -> (r: Option<(Atom, usize)>) {
        if byte(s, i, BACKSLASH) {
            read_atom(s, i + 1)
        } else {
            None
        }
    }
}

/// `DQUOTE QUOTED-CHAR DQUOTE / nil`: the delimiter, or `None`.
pub open spec fn spec_delimiter(s: Seq<u8>, i: int) -> Option<(Option<u8>, int)> {
    if spec_byte(s, i, DQUOTE) {
        let c = if spec_byte(s, i + 1, BACKSLASH) && i + 2 < s.len() && is_quoted_special(s[i + 2]) {
            Some((s[i + 2], i + 3))
        } else if i + 1 < s.len() && is_text_char(s[i + 1]) && !is_quoted_special(s[i + 1]) {
            Some((s[i + 1], i + 2))
        } else {
            None
        };
        match c {
            Some((b, j)) => if spec_byte(s, j, DQUOTE) {
                Some((Some(b), j + 1))
            } else {
                None
            },
            None => None,
        }
    } else if spec_keyword(s, i, NIL@) {
        Some((None, i + 3))
    } else {
        None
    }
}

fn read_delimiter(s: &[u8], i: usize) -> (r: Option<(Option<u8>, usize)>)
    requires
        i <= s@.len(),
    ensures
        r matches Some((d, j)) ==> spec_delimiter(s@, i as int) == Some((d, j as int)) && i < j <= s@.len(),
        r is None ==> spec_delimiter(s@, i as int) is None,
{
    if byte(s, i, DQUOTE) {
        let (b, j) = if byte(s, i + 1, BACKSLASH) && i + 2 < s.len() && is_quoted_special(s[i + 2]) {
            (s[i + 2], i + 3)
        } else if i + 1 < s.len() && is_text_char(s[i + 1]) && !is_quoted_special(s[i + 1]) {
            (s[i + 1], i + 2)
        } else {
            return None;
        };
        if byte(s, j, DQUOTE) {
            Some((Some(b), j + 1))
        } else {
            None
        }
    } else if keyword(s, i, NIL.as_slice()) {
        Some((None, i + 3))
    } else {
        None
    }
}

/// `mailbox-list = "(" [mbx-list-flags] ")" SP (DQUOTE QUOTED-CHAR DQUOTE /
/// nil) SP mailbox`, the flags read as name attributes.
pub open spec fn spec_mailbox_list(s: Seq<u8>, i: int) -> Option<((Seq<Seq<u8>>, Option<u8>, MailboxV), int)> {
    match spec_paren_list(NameAttrRule, s, i, true) {
        Some((items, j)) => if spec_byte(s, j, SP) {
            match spec_delimiter(s, j + 1) {
                Some((d, k)) => if spec_byte(s, k, SP) {
                    match spec_mailbox(s, k + 1) {
                        Some((m, l)) => Some(((items, d, m), l)),
                        None => None,
                    }
                } else {
                    None
                },
                None => None,
            }
        } else {
            None
        },
        None => None,
    }
}

fn read_mailbox_list(s: &[u8], i: usize) -> (r: Option<((Vec<Atom>, Option<u8>, Mailbox), usize)>)
    requires
        i <= s@.len(),
    ensures
        read_view(r) == spec_mailbox_list(s@, i as int),
        r matches Some((_, j)) ==> i < j <= s@.len(),
{
    let (items, j) = match read_paren_list(&NameAttrRule, s, i, true) {
        Some(x) => x,
        None => return None,
    };
    if !byte(s, j, SP) {
        return None;
    }
    let (d, k) = match read_delimiter(s, j + 1) {
        Some(x) => x,
        None => return None,
    };
    if !byte(s, k, SP) {
        return None;
    }
    match read_mailbox(s, k + 1) {
        Some((m, l)) => Some(((items, d, m), l)),
        None => None,
    }
}

/// An identifier and its rights: `astring SP astring`.
pub open spec fn spec_acl_entry(s: Seq<u8>, i: int) -> Option<((StrV, StrV), int)> {
    match crate::strings::spec_astring(s, i) {
        Some((a, j)) => if spec_byte(s, j, SP) {
            match crate::strings::spec_astring(s, j + 1) {
                Some((b, k)) => Some(((a, b), k)),
                None => None,
            }
        } else {
            None
        },
        None => None,
    }
}

/// The rule for an identifier and its rights.
pub struct AclEntryRule;

impl Rule for AclEntryRule {
    type Out = (crate::strings::AString, crate::strings::AString);

    open spec fn spec_read(&self, s: Seq<u8>, i: int) -> Option<((StrV, StrV), int)> {
        spec_acl_entry(s, i)
    }

    fn read(&self, s: &[u8], i: usize) -> (r: Option<((crate::strings::AString, crate::strings::AString), usize)>) {
        match crate::strings::read_astring(s, i) {
            Some((a, j)) => if byte(s, j, SP) {
                match crate::strings::read_astring(s, j + 1) {
                    Some((b, k)) => Some(((a, b), k)),
                    None => None,
                }
            } else {
                None
            },
            None => None,
        }
    }
}

} // verus!

verus! {

/// `"LIST" SP mailbox-list [SP mbox-list-extended]`
pub open spec fn spec_list_data(s: Seq<u8>, i: int) -> Option<(DataV, int)> {
    if spec_keyword(s, i, LIST_SP@) {
        match spec_mailbox_list(s, i + 5) {
            Some(((items, delimiter, mailbox), j)) => {
                let (extended, k) = if spec_byte(s, j, SP) {
                    match spec_mbox_list_extended(s, j + 1) {
                        Some((e, k)) => (e, k),
                        None => (seq![], j),
                    }
                } else {
                    (seq![], j)
                };
                Some((DataV::List { items, delimiter, mailbox, extended }, k))
            },
            None => None,
        }
    } else {
        None
    }
}

fn read_list_data(s: &[u8], i: usize) -> (r: Option<(Data, usize)>)
    requires
        i <= s@.len(),
    ensures
        read_view(r) == spec_list_data(s@, i as int),
        r matches Some((_, j)) ==> i < j <= s@.len(),
{
    if !keyword(s, i, LIST_SP.as_slice()) {
        return None;
    }
    match read_mailbox_list(s, i + 5) {
        Some(((items, delimiter, mailbox), j)) => {
            if byte(s, j, SP) {
                if let Some((extended, k)) = read_mbox_list_extended(s, j + 1) {
                    return Some((Data::List { items, delimiter, mailbox, extended }, k));
                }
            }
            let extended: Vec<ListExtendedItem> = Vec::new();
            assert(extended.deep_view() =~= seq![]);
            Some((Data::List { items, delimiter, mailbox, extended }, j))
        },
        None => None,
    }
}

/// `mailbox-data`, those this crate knows, in the order they are tried:
/// `FLAGS`, `LIST`, `LSUB`, `SEARCH`, `SORT`, `ESEARCH`, `STATUS`, then
/// `EXISTS` and `RECENT`.
#[verifier::opaque]
pub open spec fn spec_mailbox_data(s: Seq<u8>, i: int) -> Option<(DataV, int)> {
    let r = crate::search::map_value(crate::search::after_keyword(s, i, FLAGS_SP@, |j: int| spec_flag_list(s, j)), |x: Seq<FlagV>| DataV::Flags(x));
    let r = crate::search::alt(r, spec_list_data(s, i));
    let r = crate::search::alt(r, if spec_keyword(s, i, LSUB_SP@) {
        match spec_mailbox_list(s, i + 5) {
            Some(((items, delimiter, mailbox), j)) => Some((DataV::Lsub { items, delimiter, mailbox }, j)),
            None => None,
        }
    } else {
        None
    });
    let r = crate::search::alt(r, if spec_keyword(s, i, crate::search_return::SEARCH@) {
        let (n, j) = spec_preceded(NzNumberRule, s, i + 6, SP);
        Some((DataV::Search(n), j))
    } else {
        None
    });
    let r = crate::search::alt(r, if spec_keyword(s, i, SORT@) {
        let (n, j) = spec_preceded(NzNumberRule, s, i + 4, SP);
        Some((DataV::Sort(n), j))
    } else {
        None
    });
    let r = crate::search::alt(r, crate::search::map_value(spec_esearch_response(s, i), |x: EsearchResponseV| DataV::ESearch(x)));
    let r = crate::search::alt(r, if spec_keyword(s, i, STATUS_W@) && spec_byte(s, i + 6, SP) {
        match spec_mailbox(s, i + 7) {
            Some((m, j)) => if spec_byte(s, j, SP) {
                match spec_paren_list(StatusAttValRule, s, j + 1, true) {
                    Some((items, k)) => Some((DataV::Status { mailbox: m, items }, k)),
                    None => None,
                }
            } else {
                None
            },
            None => None,
        }
    } else {
        None
    });
    crate::search::alt(r, match spec_number(s, i) {
        Some((n, j)) => if spec_keyword(s, j, SP_EXISTS@) {
            Some((DataV::Exists(n), j + 7))
        } else if spec_keyword(s, j, SP_RECENT@) {
            Some((DataV::Recent(n), j + 7))
        } else {
            None
        },
        None => None,
    })
}

fn read_mailbox_data(s: &[u8], i: usize) -> (r: Option<(Data, usize)>)
    requires
        i <= s@.len(),
    ensures
        read_view(r) == spec_mailbox_data(s@, i as int),
        r matches Some((_, j)) ==> i < j <= s@.len(),
{
    proof {
        reveal(spec_mailbox_data);
    }
    if keyword(s, i, FLAGS_SP.as_slice()) {
        if let Some((f, j)) = read_paren_list(&FlagRule, s, i + 6, true) {
            return Some((Data::Flags(f), j));
        }
    }
    if let Some(x) = read_list_data(s, i) {
        return Some(x);
    }
    if keyword(s, i, LSUB_SP.as_slice()) {
        if let Some(((items, delimiter, mailbox), j)) = read_mailbox_list(s, i + 5) {
            return Some((Data::Lsub { items, delimiter, mailbox }, j));
        }
    }
    if keyword(s, i, crate::search_return::SEARCH.as_slice()) {
        let (n, j) = read_preceded(&NzNumberRule, s, i + 6, SP);
        return Some((Data::Search(n), j));
    }
    if keyword(s, i, SORT.as_slice()) {
        let (n, j) = read_preceded(&NzNumberRule, s, i + 4, SP);
        return Some((Data::Sort(n), j));
    }
    if let Some((e, j)) = read_esearch_response(s, i) {
        return Some((Data::ESearch(e), j));
    }
    if keyword(s, i, STATUS_W.as_slice()) && byte(s, i + 6, SP) {
        if let Some((m, j)) = read_mailbox(s, i + 7) {
            if byte(s, j, SP) {
                if let Some((items, k)) = read_paren_list(&StatusAttValRule, s, j + 1, true) {
                    return Some((Data::Status { mailbox: m, items }, k));
                }
            }
        }
    }
    match read_number(s, i) {
        Some((n, j)) => if keyword(s, j, SP_EXISTS.as_slice()) {
            Some((Data::Exists(n), j + 7))
        } else if keyword(s, j, SP_RECENT.as_slice()) {
            Some((Data::Recent(n), j + 7))
        } else {
            None
        },
        None => None,
    }
}

/// `acl-data = "ACL" SP mailbox *(SP identifier SP rights)`
pub open spec fn spec_acl_data(s: Seq<u8>, i: int) -> Option<(DataV, int)> {
    if spec_keyword(s, i, crate::command::ACL_SP@) {
        match spec_mailbox(s, i + 4) {
            Some((m, j)) => {
                let (entries, k) = spec_preceded(AclEntryRule, s, j, SP);
                Some((DataV::Acl { mailbox: m, entries }, k))
            },
            None => None,
        }
    } else {
        None
    }
}

/// `listrights-data = "LISTRIGHTS" SP mailbox SP identifier SP rights
/// *(SP rights)`
pub open spec fn spec_listrights_data(s: Seq<u8>, i: int) -> Option<(DataV, int)> {
    if spec_keyword(s, i, crate::command::LISTRIGHTS_SP@) {
        match crate::acl::spec_mailbox_astring(s, i + 11) {
            Some(((m, id), k)) => if spec_byte(s, k, SP) {
                match crate::strings::spec_astring(s, k + 1) {
                    Some((req, l)) => {
                        let (optional, e) = spec_preceded(AStringRule, s, l, SP);
                        Some((DataV::ListRights { mailbox: m, identifier: id, required: req, optional }, e))
                    },
                    None => None,
                }
            } else {
                None
            },
            None => None,
        }
    } else {
        None
    }
}

/// `myrights-data = "MYRIGHTS" SP mailbox SP rights`
pub open spec fn spec_myrights_data(s: Seq<u8>, i: int) -> Option<(DataV, int)> {
    if spec_keyword(s, i, crate::command::MYRIGHTS_SP@) {
        match crate::acl::spec_mailbox_astring(s, i + 9) {
            Some(((m, r), k)) => Some((DataV::MyRights { mailbox: m, rights: r }, k)),
            None => None,
        }
    } else {
        None
    }
}

/// `message-data = nz-number SP ("EXPUNGE" / ("FETCH" SP msg-att))`
pub open spec fn spec_message_data(s: Seq<u8>, i: int) -> Option<(DataV, int)> {
    match spec_nz_number(s, i) {
        Some((n, j)) => if spec_byte(s, j, SP) {
            if spec_keyword(s, j + 1, EXPUNGE@) {
                Some((DataV::Expunge(n), j + 8))
            } else if spec_keyword(s, j + 1, FETCH_SP@) {
                match spec_msg_att(s, j + 7) {
                    Some((items, k)) => Some((DataV::Fetch { seq: n, items }, k)),
                    None => None,
                }
            } else {
                None
            }
        } else {
            None
        },
        None => None,
    }
}

/// The other data responses, in the order they are tried: those of
/// RFC 4314 and RFC 4467, `message-data`, and `capability-data =
/// "CAPABILITY" 1*(SP capability)`, each capability read as an atom.
#[verifier::opaque]
pub open spec fn spec_other_data(s: Seq<u8>, i: int) -> Option<(DataV, int)> {
    let r = spec_acl_data(s, i);
    let r = crate::search::alt(r, spec_listrights_data(s, i));
    let r = crate::search::alt(r, spec_myrights_data(s, i));
    let r = crate::search::alt(r, crate::search::map_value(crate::urlauth::spec_genurlauth_data(s, i), |x: Seq<StrV>| DataV::GenUrlAuth { urls: x }));
    let r = crate::search::alt(r, crate::search::map_value(crate::urlauth::spec_urlfetch_data(s, i), |x: Seq<crate::urlauth::UrlFetchDataV>| DataV::UrlFetch { items: x }));
    let r = crate::search::alt(r, spec_message_data(s, i));
    crate::search::alt(r, if spec_keyword(s, i, CAPABILITY@) {
        let (c, j) = spec_preceded(AtomRule, s, i + 10, SP);
        if c.len() > 0 {
            Some((DataV::Capability(c), j))
        } else {
            None
        }
    } else {
        None
    })
}

fn read_other_data(s: &[u8], i: usize) -> (r: Option<(Data, usize)>)
    requires
        i <= s@.len(),
    ensures
        read_view(r) == spec_other_data(s@, i as int),
        r matches Some((_, j)) ==> i < j <= s@.len(),
{
    proof {
        reveal(spec_other_data);
    }
    if keyword(s, i, crate::command::ACL_SP.as_slice()) {
        if let Some((m, j)) = read_mailbox(s, i + 4) {
            let (entries, k) = read_preceded(&AclEntryRule, s, j, SP);
            return Some((Data::Acl { mailbox: m, entries }, k));
        }
    }
    if keyword(s, i, crate::command::LISTRIGHTS_SP.as_slice()) {
        if let Some((m, j)) = read_mailbox(s, i + 11) {
            if byte(s, j, SP) {
                if let Some((id, k)) = crate::strings::read_astring(s, j + 1) {
                    if byte(s, k, SP) {
                        if let Some((req, l)) = crate::strings::read_astring(s, k + 1) {
                            let (optional, e) = read_preceded(&AStringRule, s, l, SP);
                            return Some((Data::ListRights { mailbox: m, identifier: id, required: req, optional }, e));
                        }
                    }
                }
            }
        }
    }
    if keyword(s, i, crate::command::MYRIGHTS_SP.as_slice()) {
        if let Some((m, j)) = read_mailbox(s, i + 9) {
            if byte(s, j, SP) {
                if let Some((r, k)) = crate::strings::read_astring(s, j + 1) {
                    return Some((Data::MyRights { mailbox: m, rights: r }, k));
                }
            }
        }
    }
    if let Some((urls, j)) = crate::urlauth::read_genurlauth_data(s, i) {
        return Some((Data::GenUrlAuth { urls }, j));
    }
    if let Some((items, j)) = crate::urlauth::read_urlfetch_data(s, i) {
        return Some((Data::UrlFetch { items }, j));
    }
    if let Some((n, j)) = NzNumberRule.read(s, i) {
        if byte(s, j, SP) {
            if keyword(s, j + 1, EXPUNGE.as_slice()) {
                return Some((Data::Expunge(n), j + 8));
            } else if keyword(s, j + 1, FETCH_SP.as_slice()) {
                if let Some((items, k)) = read_paren_list(&MsgAttItemRule, s, j + 7, false) {
                    if let Some(v) = Vec1::from_vec_dv(items) {
                        return Some((Data::Fetch { seq: n, items: v }, k));
                    }
                }
            }
        }
    }
    if keyword(s, i, CAPABILITY.as_slice()) {
        let (c, j) = read_preceded(&AtomRule, s, i + 10, SP);
        if let Some(v) = Vec1::from_vec_dv(c) {
            return Some((Data::Capability(v), j));
        }
    }
    None
}

/// `response-data` after `"*" SP`, without CRLF: a status or data.
#[verifier::opaque]
pub open spec fn spec_untagged(s: Seq<u8>, i: int) -> Option<(ResponseV, int)> {
    let r = crate::search::map_value(spec_cond_state(s, i), |b: StatusBodyV| ResponseV::Status(StatusV::Untagged(b)));
    let r = crate::search::alt(r, if spec_keyword(s, i, BYE_SP@) {
        match spec_resp_text(s, i + 4) {
            Some(((c, t), j)) => Some((ResponseV::Status(StatusV::Bye(c, t)), j)),
            None => None,
        }
    } else {
        None
    });
    let r = crate::search::alt(r, crate::search::map_value(spec_mailbox_data(s, i), |d: DataV| ResponseV::Data(d)));
    crate::search::alt(r, crate::search::map_value(spec_other_data(s, i), |d: DataV| ResponseV::Data(d)))
}

/// `response = ("*" SP (resp-cond-state / resp-cond-bye / mailbox-data /
/// message-data / capability-data) / tag SP resp-cond-state) CRLF`
pub open spec fn spec_response(s: Seq<u8>, i: int) -> Option<(ResponseV, int)> {
    let r = if spec_byte(s, i, ASTERISK) && spec_byte(s, i + 1, SP) {
        spec_untagged(s, i + 2)
    } else {
        match spec_tag(s, i) {
            Some((t, j)) => if spec_byte(s, j, SP) {
                match spec_cond_state(s, j + 1) {
                    Some((b, k)) => Some((ResponseV::Status(StatusV::Tagged(t, b)), k)),
                    None => None,
                }
            } else {
                None
            },
            None => None,
        }
    };
    match r {
        Some((v, k)) => if spec_byte(s, k, CR) && spec_byte(s, k + 1, LF) {
            Some((v, k + 2))
        } else {
            None
        },
        None => None,
    }
}

fn read_untagged(s: &[u8], i: usize) -> (r: Option<(Response, usize)>)
    requires
        i <= s@.len(),
    ensures
        read_view(r) == spec_untagged(s@, i as int),
        r matches Some((_, j)) ==> i < j <= s@.len(),
{
    proof {
        reveal(spec_untagged);
    }
    if let Some((b, j)) = read_cond_state(s, i) {
        return Some((Response::Status(Status::Untagged(b)), j));
    }
    if keyword(s, i, BYE_SP.as_slice()) {
        if let Some(((c, t), j)) = read_resp_text(s, i + 4) {
            return Some((Response::Status(Status::Bye(c, t)), j));
        }
    }
    if let Some((d, j)) = read_mailbox_data(s, i) {
        return Some((Response::Data(d), j));
    }
    match read_other_data(s, i) {
        Some((d, j)) => Some((Response::Data(d), j)),
        None => None,
    }
}

/// Reads a response at `i`.
pub fn read_response(s: &[u8], i: usize) -> (r: Option<(Response, usize)>)
    requires
        i <= s@.len(),
    ensures
        read_view(r) == spec_response(s@, i as int),
        r matches Some((_, j)) ==> i < j <= s@.len(),
{
    let r = if byte(s, i, ASTERISK) && byte(s, i + 1, SP) {
        read_untagged(s, i + 2)
    } else {
        match read_tag(s, i) {
            Some((t, j)) => if byte(s, j, SP) {
                match read_cond_state(s, j + 1) {
                    Some((b, k)) => Some((Response::Status(Status::Tagged(t, b)), k)),
                    None => None,
                }
            } else {
                None
            },
            None => None,
        }
    };
    match r {
        Some((v, k)) => if byte(s, k, CR) && byte(s, k + 1, LF) {
            Some((v, k + 2))
        } else {
            None
        },
        None => None,
    }
}

} // verus!

verus! {

// ---------------------------------------------------------------------
// Writing.

/// Writes name attributes, each after a backslash.
pub struct NameAttrWriter;

impl Writer for NameAttrWriter {
    type In = Atom;

    open spec fn spec_write(&self, v: Seq<u8>) -> Seq<u8> {
        seq![BACKSLASH] + v
    }

    fn write(&self, out: &mut Vec<u8>, v: &Atom) {
        let ghost start = old(out)@;
        out.push(BACKSLASH);
        put(out, v.as_bytes());
        assert(out@ =~= start + (seq![BACKSLASH] + v.deep_view()));
    }
}

/// Writes identifiers and their rights.
pub struct AclEntryWriter;

impl Writer for AclEntryWriter {
    type In = (crate::strings::AString, crate::strings::AString);

    open spec fn spec_write(&self, v: (StrV, StrV)) -> Seq<u8> {
        crate::strings::spec_write_str(v.0) + seq![SP] + crate::strings::spec_write_str(v.1)
    }

    fn write(&self, out: &mut Vec<u8>, v: &(crate::strings::AString, crate::strings::AString)) {
        let ghost start = old(out)@;
        crate::strings::write_astring(out, &v.0);
        out.push(SP);
        crate::strings::write_astring(out, &v.1);
        assert(out@ =~= start + self.spec_write(v.deep_view()));
    }
}

/// How a delimiter is written: quoted, escaped where it must be, or
/// `NIL`.
pub open spec fn spec_write_delimiter(d: Option<u8>) -> Seq<u8> {
    match d {
        Some(b) => seq![DQUOTE] + (if is_quoted_special(b) {
            seq![BACKSLASH, b]
        } else {
            seq![b]
        }) + seq![DQUOTE],
        None => NIL@,
    }
}

/// How `mailbox-list` is written.
pub open spec fn spec_write_mailbox_list(items: Seq<Seq<u8>>, d: Option<u8>, m: MailboxV) -> Seq<u8> {
    seq![LPAREN] + join(written(NameAttrWriter, items), seq![SP]) + seq![RPAREN, SP] + spec_write_delimiter(d)
        + seq![SP] + spec_write_mailbox(m)
}

fn write_mailbox_list(out: &mut Vec<u8>, items: &Vec<Atom>, d: &Option<u8>, m: &Mailbox)
    ensures
        final(out)@ == old(out)@ + spec_write_mailbox_list(items.deep_view(), *d, m.deep_view()),
{
    let ghost start = old(out)@;
    out.push(LPAREN);
    let sp = [SP];
    write_joined(&NameAttrWriter, out, items.as_slice(), sp.as_slice());
    assert(sp@ =~= seq![SP]);
    out.push(RPAREN);
    out.push(SP);
    let ghost a = out@;
    match d {
        Some(b) => {
            out.push(DQUOTE);
            if is_quoted_special(*b) {
                out.push(BACKSLASH);
            }
            out.push(*b);
            out.push(DQUOTE);
        },
        None => put(out, NIL.as_slice()),
    }
    assert(out@ =~= a + spec_write_delimiter(*d));
    out.push(SP);
    write_mailbox(out, m);
    assert(out@ =~= start + spec_write_mailbox_list(items.deep_view(), *d, m.deep_view()));
}

/// How a data response is written, after `"*" SP`.
pub open spec fn spec_write_data(d: DataV) -> Seq<u8> {
    match d {
        DataV::Capability(c) => CAPABILITY@ + prefixed(written(AtomWriter, c), seq![SP]),
        DataV::List { items, delimiter, mailbox, extended } => LIST_SP@ + spec_write_mailbox_list(items, delimiter, mailbox)
            + if extended.len() > 0 {
            seq![SP] + spec_write_mbox_list_extended(extended)
        } else {
            seq![]
        },
        DataV::Lsub { items, delimiter, mailbox } => LSUB_SP@ + spec_write_mailbox_list(items, delimiter, mailbox),
        DataV::Flags(f) => FLAGS_SP@ + spec_write_flag_list(f),
        DataV::Search(n) => crate::search_return::SEARCH@ + prefixed(written(crate::fetch::NzNumberWriter, n), seq![SP]),
        DataV::Sort(n) => SORT@ + prefixed(written(crate::fetch::NzNumberWriter, n), seq![SP]),
        DataV::ESearch(e) => spec_write_esearch_response(e),
        DataV::Status { mailbox, items } => STATUS_W@ + seq![SP] + spec_write_mailbox(mailbox) + seq![SP, LPAREN]
            + join(written(StatusAttValWriter, items), seq![SP]) + seq![RPAREN],
        DataV::Exists(n) => decimal(n as nat) + SP_EXISTS@,
        DataV::Recent(n) => decimal(n as nat) + SP_RECENT@,
        DataV::Expunge(n) => decimal(n as nat) + seq![SP] + EXPUNGE@,
        DataV::Fetch { seq, items } => decimal(seq as nat) + seq![SP] + FETCH_SP@ + seq![LPAREN]
            + join(written(MsgAttItemWriter, items), seq![SP]) + seq![RPAREN],
        DataV::Acl { mailbox, entries } => crate::command::ACL_SP@ + spec_write_mailbox(mailbox)
            + prefixed(written(AclEntryWriter, entries), seq![SP]),
        DataV::ListRights { mailbox, identifier, required, optional } => crate::command::LISTRIGHTS_SP@
            + spec_write_mailbox(mailbox) + seq![SP] + crate::strings::spec_write_str(identifier) + seq![SP]
            + crate::strings::spec_write_str(required) + prefixed(written(AStringWriter, optional), seq![SP]),
        DataV::MyRights { mailbox, rights } => crate::command::MYRIGHTS_SP@ + spec_write_mailbox(mailbox) + seq![SP]
            + crate::strings::spec_write_str(rights),
        DataV::GenUrlAuth { urls } => crate::urlauth::spec_write_genurlauth_data(urls),
        DataV::UrlFetch { items } => crate::urlauth::spec_write_urlfetch_data(items),
    }
}

fn write_capability_data(out: &mut Vec<u8>, d: &Data)
    requires
        d is Capability,
    ensures
        final(out)@ == old(out)@ + spec_write_data(d.deep_view()),
{
    let ghost start = old(out)@;
    match d {
        Data::Capability(c) => {
            put(out, CAPABILITY.as_slice());
            let sp = [SP];
            write_prefixed(&AtomWriter, out, c.as_slice_dv(), sp.as_slice());
            assert(sp@ =~= seq![SP]);
            assert(out@ =~= start + spec_write_data(d.deep_view()));
        },
        _ => {},
    }
}

fn write_list_data(out: &mut Vec<u8>, d: &Data)
    requires
        d is List,
    ensures
        final(out)@ == old(out)@ + spec_write_data(d.deep_view()),
{
    let ghost start = old(out)@;
    match d {
        Data::List { items, delimiter, mailbox, extended } => {
            put(out, LIST_SP.as_slice());
            write_mailbox_list(out, items, delimiter, mailbox);
            if extended.len() > 0 {
                out.push(SP);
                write_mbox_list_extended(out, extended.as_slice());
            }
            assert(out@ =~= start + spec_write_data(d.deep_view()));
        },
        _ => {},
    }
}

fn write_lsub_data(out: &mut Vec<u8>, d: &Data)
    requires
        d is Lsub,
    ensures
        final(out)@ == old(out)@ + spec_write_data(d.deep_view()),
{
    let ghost start = old(out)@;
    match d {
        Data::Lsub { items, delimiter, mailbox } => {
            put(out, LSUB_SP.as_slice());
            write_mailbox_list(out, items, delimiter, mailbox);
            assert(out@ =~= start + spec_write_data(d.deep_view()));
        },
        _ => {},
    }
}

fn write_flags_data(out: &mut Vec<u8>, d: &Data)
    requires
        d is Flags,
    ensures
        final(out)@ == old(out)@ + spec_write_data(d.deep_view()),
{
    let ghost start = old(out)@;
    match d {
        Data::Flags(f) => {
            put(out, FLAGS_SP.as_slice());
            write_flag_list(out, f.as_slice());
            assert(out@ =~= start + spec_write_data(d.deep_view()));
        },
        _ => {},
    }
}

fn write_search_data(out: &mut Vec<u8>, d: &Data)
    requires
        d is Search,
    ensures
        final(out)@ == old(out)@ + spec_write_data(d.deep_view()),
{
    let ghost start = old(out)@;
    match d {
        Data::Search(n) => {
            put(out, crate::search_return::SEARCH.as_slice());
            let sp = [SP];
            write_prefixed(&crate::fetch::NzNumberWriter, out, n.as_slice(), sp.as_slice());
            assert(sp@ =~= seq![SP]);
            assert(out@ =~= start + spec_write_data(d.deep_view()));
        },
        _ => {},
    }
}

fn write_sort_data(out: &mut Vec<u8>, d: &Data)
    requires
        d is Sort,
    ensures
        final(out)@ == old(out)@ + spec_write_data(d.deep_view()),
{
    let ghost start = old(out)@;
    match d {
        Data::Sort(n) => {
            put(out, SORT.as_slice());
            let sp = [SP];
            write_prefixed(&crate::fetch::NzNumberWriter, out, n.as_slice(), sp.as_slice());
            assert(sp@ =~= seq![SP]);
            assert(out@ =~= start + spec_write_data(d.deep_view()));
        },
        _ => {},
    }
}

fn write_e_search_data(out: &mut Vec<u8>, d: &Data)
    requires
        d is ESearch,
    ensures
        final(out)@ == old(out)@ + spec_write_data(d.deep_view()),
{
    let ghost start = old(out)@;
    match d {
        Data::ESearch(e) => {
            write_esearch_response(out, e);
            assert(out@ =~= start + spec_write_data(d.deep_view()));
        },
        _ => {},
    }
}

fn write_status_data(out: &mut Vec<u8>, d: &Data)
    requires
        d is Status,
    ensures
        final(out)@ == old(out)@ + spec_write_data(d.deep_view()),
{
    let ghost start = old(out)@;
    match d {
        Data::Status { mailbox, items } => {
            put(out, STATUS_W.as_slice());
            out.push(SP);
            write_mailbox(out, mailbox);
            out.push(SP);
            out.push(LPAREN);
            let sp = [SP];
            write_joined(&StatusAttValWriter, out, items.as_slice(), sp.as_slice());
            out.push(RPAREN);
            assert(sp@ =~= seq![SP]);
            assert(out@ =~= start + spec_write_data(d.deep_view()));
        },
        _ => {},
    }
}

fn write_exists_data(out: &mut Vec<u8>, d: &Data)
    requires
        d is Exists,
    ensures
        final(out)@ == old(out)@ + spec_write_data(d.deep_view()),
{
    let ghost start = old(out)@;
    match d {
        Data::Exists(n) => {
            write_number(out, *n);
            put(out, SP_EXISTS.as_slice());
            assert(out@ =~= start + spec_write_data(d.deep_view()));
        },
        _ => {},
    }
}

fn write_recent_data(out: &mut Vec<u8>, d: &Data)
    requires
        d is Recent,
    ensures
        final(out)@ == old(out)@ + spec_write_data(d.deep_view()),
{
    let ghost start = old(out)@;
    match d {
        Data::Recent(n) => {
            write_number(out, *n);
            put(out, SP_RECENT.as_slice());
            assert(out@ =~= start + spec_write_data(d.deep_view()));
        },
        _ => {},
    }
}

fn write_expunge_data(out: &mut Vec<u8>, d: &Data)
    requires
        d is Expunge,
    ensures
        final(out)@ == old(out)@ + spec_write_data(d.deep_view()),
{
    let ghost start = old(out)@;
    match d {
        Data::Expunge(n) => {
            write_number(out, n.get());
            out.push(SP);
            put(out, EXPUNGE.as_slice());
            assert(out@ =~= start + spec_write_data(d.deep_view()));
        },
        _ => {},
    }
}

fn write_fetch_data(out: &mut Vec<u8>, d: &Data)
    requires
        d is Fetch,
    ensures
        final(out)@ == old(out)@ + spec_write_data(d.deep_view()),
{
    let ghost start = old(out)@;
    match d {
        Data::Fetch { seq, items } => {
            write_number(out, seq.get());
            out.push(SP);
            put(out, FETCH_SP.as_slice());
            out.push(LPAREN);
            let sp = [SP];
            write_joined(&MsgAttItemWriter, out, items.as_slice_dv(), sp.as_slice());
            out.push(RPAREN);
            assert(sp@ =~= seq![SP]);
            assert(out@ =~= start + spec_write_data(d.deep_view()));
        },
        _ => {},
    }
}

fn write_acl_data(out: &mut Vec<u8>, d: &Data)
    requires
        d is Acl,
    ensures
        final(out)@ == old(out)@ + spec_write_data(d.deep_view()),
{
    let ghost start = old(out)@;
    match d {
        Data::Acl { mailbox, entries } => {
            put(out, crate::command::ACL_SP.as_slice());
            write_mailbox(out, mailbox);
            let sp = [SP];
            write_prefixed(&AclEntryWriter, out, entries.as_slice(), sp.as_slice());
            assert(sp@ =~= seq![SP]);
            assert(out@ =~= start + spec_write_data(d.deep_view()));
        },
        _ => {},
    }
}

fn write_list_rights_data(out: &mut Vec<u8>, d: &Data)
    requires
        d is ListRights,
    ensures
        final(out)@ == old(out)@ + spec_write_data(d.deep_view()),
{
    let ghost start = old(out)@;
    match d {
        Data::ListRights { mailbox, identifier, required, optional } => {
            put(out, crate::command::LISTRIGHTS_SP.as_slice());
            write_mailbox(out, mailbox);
            out.push(SP);
            crate::strings::write_astring(out, identifier);
            out.push(SP);
            crate::strings::write_astring(out, required);
            let sp = [SP];
            write_prefixed(&AStringWriter, out, optional.as_slice(), sp.as_slice());
            assert(sp@ =~= seq![SP]);
            assert(out@ =~= start + spec_write_data(d.deep_view()));
        },
        _ => {},
    }
}

fn write_my_rights_data(out: &mut Vec<u8>, d: &Data)
    requires
        d is MyRights,
    ensures
        final(out)@ == old(out)@ + spec_write_data(d.deep_view()),
{
    let ghost start = old(out)@;
    match d {
        Data::MyRights { mailbox, rights } => {
            put(out, crate::command::MYRIGHTS_SP.as_slice());
            write_mailbox(out, mailbox);
            out.push(SP);
            crate::strings::write_astring(out, rights);
            assert(out@ =~= start + spec_write_data(d.deep_view()));
        },
        _ => {},
    }
}

fn write_gen_url_auth_data(out: &mut Vec<u8>, d: &Data)
    requires
        d is GenUrlAuth,
    ensures
        final(out)@ == old(out)@ + spec_write_data(d.deep_view()),
{
    let ghost start = old(out)@;
    match d {
        Data::GenUrlAuth { urls } => {
            crate::urlauth::write_genurlauth_data(out, urls);
            assert(out@ =~= start + spec_write_data(d.deep_view()));
        },
        _ => {},
    }
}

fn write_url_fetch_data(out: &mut Vec<u8>, d: &Data)
    requires
        d is UrlFetch,
    ensures
        final(out)@ == old(out)@ + spec_write_data(d.deep_view()),
{
    let ghost start = old(out)@;
    match d {
        Data::UrlFetch { items } => {
            crate::urlauth::write_urlfetch_data(out, items);
            assert(out@ =~= start + spec_write_data(d.deep_view()));
        },
        _ => {},
    }
}

/// Writes a data response, after `"*" SP`.
pub fn write_data(out: &mut Vec<u8>, d: &Data)
    ensures
        final(out)@ == old(out)@ + spec_write_data(d.deep_view()),
{
    match d {
        Data::Capability { .. } => write_capability_data(out, d),
        Data::List { .. } => write_list_data(out, d),
        Data::Lsub { .. } => write_lsub_data(out, d),
        Data::Flags { .. } => write_flags_data(out, d),
        Data::Search { .. } => write_search_data(out, d),
        Data::Sort { .. } => write_sort_data(out, d),
        Data::ESearch { .. } => write_e_search_data(out, d),
        Data::Status { .. } => write_status_data(out, d),
        Data::Exists { .. } => write_exists_data(out, d),
        Data::Recent { .. } => write_recent_data(out, d),
        Data::Expunge { .. } => write_expunge_data(out, d),
        Data::Fetch { .. } => write_fetch_data(out, d),
        Data::Acl { .. } => write_acl_data(out, d),
        Data::ListRights { .. } => write_list_rights_data(out, d),
        Data::MyRights { .. } => write_my_rights_data(out, d),
        Data::GenUrlAuth { .. } => write_gen_url_auth_data(out, d),
        Data::UrlFetch { .. } => write_url_fetch_data(out, d),
    }
}

/// How a response is written.
pub open spec fn spec_write_response(r: ResponseV) -> Seq<u8> {
    (match r {
        ResponseV::Status(StatusV::Untagged(b)) => seq![ASTERISK, SP] + spec_write_status_body(b),
        ResponseV::Status(StatusV::Tagged(t, b)) => t + seq![SP] + spec_write_status_body(b),
        ResponseV::Status(StatusV::Bye(c, t)) => seq![ASTERISK, SP] + BYE_SP@ + spec_write_resp_text(c, t),
        ResponseV::Data(d) => seq![ASTERISK, SP] + spec_write_data(d),
    }) + seq![CR, LF]
}

impl Response {
    /// The response's bytes.
    pub fn encode(&self) -> (r: Vec<u8>)
        ensures
            r@ == spec_write_response(self.deep_view()),
    {
        let mut out: Vec<u8> = Vec::new();
        match self {
            Response::Status(Status::Untagged(b)) => {
                out.push(ASTERISK);
                out.push(SP);
                write_status_body(&mut out, b);
            },
            Response::Status(Status::Tagged(t, b)) => {
                put(&mut out, t.as_bytes());
                out.push(SP);
                write_status_body(&mut out, b);
            },
            Response::Status(Status::Bye(c, t)) => {
                out.push(ASTERISK);
                out.push(SP);
                put(&mut out, BYE_SP.as_slice());
                write_resp_text(&mut out, c, t);
            },
            Response::Data(d) => {
                out.push(ASTERISK);
                out.push(SP);
                write_data(&mut out, d);
            },
        }
        out.push(CR);
        out.push(LF);
        assert(out@ =~= spec_write_response(self.deep_view()));
        out
    }
}

/// Reads responses.
#[derive(Clone, Copy, Debug, PartialEq, Eq, Hash)]
pub struct ResponseCodec;

impl Default for ResponseCodec {
    fn default() -> (r: Self)
        ensures
            r == ResponseCodec,
    {
        ResponseCodec
    }
}

impl ResponseCodec {
    /// Reads the response the input begins with, and gives what follows
    /// it; fails where the input does not begin with a whole response.
    pub fn decode<'a>(&self, input: &'a [u8]) -> (r: Result<(&'a [u8], Response), crate::command::DecodeError>)
        ensures
            match spec_response(input@, 0) {
                Some((v, j)) => r matches Ok((rest, resp)) && resp.deep_view() == v && rest@ == input@.subrange(j, input@.len() as int),
                None => r == Err::<(&'a [u8], Response), crate::command::DecodeError>(crate::command::DecodeError::Failed),
            },
    {
        match read_response(input, 0) {
            Some((v, j)) => Ok((&input[j..input.len()], v)),
            None => Err(crate::command::DecodeError::Failed),
        }
    }
}

} // verus!

verus! {

// ---------------------------------------------------------------------
// What is written reads back.

/// A keyword does not stand at `i` where one of its bytes differs, in
/// every case, from the byte in its place.
proof fn lemma_kw_differs(s: Seq<u8>, i: int, kw: Seq<u8>, j: int)
    ensures
        0 <= i && 0 <= j < kw.len() && i + j < s.len() && crate::chars::to_lower(s[i + j]) != crate::chars::to_lower(kw[j])
            ==> !spec_keyword(s, i, kw),
{
    if 0 <= i && 0 <= j < kw.len() && i + j < s.len() && crate::chars::to_lower(s[i + j]) != crate::chars::to_lower(kw[j]) {
        crate::chars::lemma_not_keyword(s, i, kw, j);
    }
}

/// Whether a code's model can be written and read back: a number is not
/// zero, an object identifier is one, `BADEVENT` names at least one event,
/// each an atom, and each `URLMECH` mechanism is made of its characters,
/// its key of base64 characters and padding.
pub open spec fn writable_code(c: CodeV) -> bool {
    match c {
        CodeV::UidNext(n) => n != 0,
        CodeV::UidValidity(n) => n != 0,
        CodeV::Unseen(n) => n != 0,
        CodeV::BadEvent(e) => e.len() > 0 && crate::strings::writable_atoms(e),
        CodeV::UrlMech(m) => crate::urlauth::writable_urlmech(m),
        CodeV::MailboxId(o) => crate::objectid::spec_objectid_check(o) is Ok,
        _ => true,
    }
}

/// The names of a `BADEVENT` code, written at `i` and followed by `)`,
/// read back.
proof fn lemma_bad_event_names_round_trip(e: Seq<Seq<u8>>, s: Seq<u8>, i: int)
    requires
        e.len() > 0,
        crate::strings::writable_atoms(e),
        0 <= i,
        i + join(written(AtomWriter, e), seq![SP]).len() < s.len(),
        s.subrange(i, i + join(written(AtomWriter, e), seq![SP]).len()) == join(written(AtomWriter, e), seq![SP]),
        s[i + join(written(AtomWriter, e), seq![SP]).len()] == RPAREN,
    ensures
        spec_separated(AtomRule, s, i, SP) == Some((e, i + join(written(AtomWriter, e), seq![SP]).len())),
{
    let ws = written(AtomWriter, e);
    let after = |c: u8| c == SP || c == RPAREN;
    assert forall|k: int, q: int| 0 <= k < e.len() implies #[trigger] crate::rule::reads_at(AtomRule, s, q, e[k], ws[k], after) by {
        assert(ws[k] == e[k]);
        if 0 <= q && q + ws[k].len() < s.len() && s.subrange(q, q + ws[k].len()) == ws[k] && after(s[q + ws[k].len()]) {
            crate::strings::lemma_atom_round_trip(e[k], s, q);
        }
    }
    crate::rule::lemma_separated_round_trip(AtomRule, e, ws, s, i, SP, after);
}

/// A code that can be written, written at `i` and followed by `]`, reads
/// back.
#[verifier::rlimit(100)]
proof fn lemma_code_round_trip(c: CodeV, s: Seq<u8>, i: int)
    requires
        writable_code(c),
        0 <= i,
        i + spec_write_code(c).len() < s.len(),
        s.subrange(i, i + spec_write_code(c).len()) == spec_write_code(c),
        s[i + spec_write_code(c).len()] == RBRACKET,
    ensures
        spec_code(s, i) == Some((c, i + spec_write_code(c).len())),
{
    let w = spec_write_code(c);
    let e = i + w.len();
    assert forall|k: int| 0 <= k < w.len() implies s[i + k] == #[trigger] w[k] by {
        assert(s[i + k] == s.subrange(i, e)[k]);
    }
    match c {
        CodeV::Alert => {
            crate::chars::lemma_keyword_at(s, i, ALERT@);
        },
        CodeV::Parse => {
            assert(w[0] == PARSE@[0]);
            crate::chars::lemma_keyword_at(s, i, PARSE@);
        },
        CodeV::ReadOnly => {
            assert(w[0] == READ_ONLY@[0]);
            crate::chars::lemma_keyword_at(s, i, READ_ONLY@);
        },
        CodeV::ReadWrite => {
            assert(w[0] == READ_WRITE@[0] && w[5] == READ_WRITE@[5]);
            crate::chars::lemma_keyword_at(s, i, READ_WRITE@);
        },
        CodeV::TryCreate => {
            assert(w[0] == TRYCREATE@[0]);
            crate::chars::lemma_keyword_at(s, i, TRYCREATE@);
        },
        CodeV::UidNext(n) => {
            assert(w[0] == UIDNEXT_SP@[0] && w[1] == UIDNEXT_SP@[1] && w[3] == UIDNEXT_SP@[3]);
            crate::chars::lemma_part(s, i, w, 0, 8);
            assert(w.subrange(0, 8) =~= UIDNEXT_SP@);
            crate::chars::lemma_keyword_at(s, i, UIDNEXT_SP@);
            crate::chars::lemma_part(s, i, w, 8, w.len() - 8);
            assert(w.subrange(8, w.len() as int) =~= decimal(n as nat));
            crate::num::lemma_number_round_trip(n, s, i + 8);
        },
        CodeV::UidValidity(n) => {
            assert(w[0] == UIDVALIDITY_SP@[0] && w[1] == UIDVALIDITY_SP@[1] && w[3] == UIDVALIDITY_SP@[3]);
            crate::chars::lemma_part(s, i, w, 0, 12);
            assert(w.subrange(0, 12) =~= UIDVALIDITY_SP@);
            crate::chars::lemma_keyword_at(s, i, UIDVALIDITY_SP@);
            crate::chars::lemma_part(s, i, w, 12, w.len() - 12);
            assert(w.subrange(12, w.len() as int) =~= decimal(n as nat));
            crate::num::lemma_number_round_trip(n, s, i + 12);
        },
        CodeV::Unseen(n) => {
            assert(w[0] == UNSEEN_SP@[0] && w[1] == UNSEEN_SP@[1]);
            crate::chars::lemma_part(s, i, w, 0, 7);
            assert(w.subrange(0, 7) =~= UNSEEN_SP@);
            crate::chars::lemma_keyword_at(s, i, UNSEEN_SP@);
            crate::chars::lemma_part(s, i, w, 7, w.len() - 7);
            assert(w.subrange(7, w.len() as int) =~= decimal(n as nat));
            crate::num::lemma_number_round_trip(n, s, i + 7);
        },
        CodeV::NotificationOverflow => {
            assert(w[0] == NOTIFICATIONOVERFLOW@[0] && w[3] == NOTIFICATIONOVERFLOW@[3]);
            crate::chars::lemma_keyword_at(s, i, NOTIFICATIONOVERFLOW@);
        },
        CodeV::BadEvent(ev) => {
            let jw = join(written(AtomWriter, ev), seq![SP]);
            assert(w[0] == BADEVENT_SP_LPAREN@[0]);
            crate::chars::lemma_part(s, i, w, 0, 10);
            assert(w.subrange(0, 10) =~= BADEVENT_SP_LPAREN@);
            crate::chars::lemma_keyword_at(s, i, BADEVENT_SP_LPAREN@);
            crate::chars::lemma_part(s, i, w, 10, jw.len() as int);
            assert(w.subrange(10, 10 + jw.len() as int) =~= jw);
            assert(s[i + 10 + jw.len()] == w[10 + jw.len() as int]);
            lemma_bad_event_names_round_trip(ev, s, i + 10);
        },
        CodeV::UrlMech(m) => {
            let pw = prefixed(written(crate::urlauth::MechanismWriter, m), seq![SP]);
            assert(w[0] == URLMECH_SP_INTERNAL@[0] && w[1] == URLMECH_SP_INTERNAL@[1]);
            crate::chars::lemma_part(s, i, w, 0, 16);
            assert(w.subrange(0, 16) =~= URLMECH_SP_INTERNAL@);
            crate::chars::lemma_keyword_at(s, i, URLMECH_SP_INTERNAL@);
            crate::chars::lemma_part(s, i, w, 16, pw.len() as int);
            assert(w.subrange(16, 16 + pw.len() as int) =~= pw);
            crate::urlauth::lemma_mechanisms_round_trip(m, s, i + 16);
        },
        CodeV::MailboxId(o) => {
            assert(w[0] == MAILBOXID_SP@[0]);
            crate::chars::lemma_part(s, i, w, 0, 10);
            assert(w.subrange(0, 10) =~= MAILBOXID_SP@);
            crate::chars::lemma_keyword_at(s, i, MAILBOXID_SP@);
            assert(s[i + 10] == w[10]);
            crate::chars::lemma_part(s, i, w, 11, o.len() as int);
            assert(w.subrange(11, 11 + o.len() as int) =~= o);
            assert(s[i + 11 + o.len()] == w[11 + o.len() as int]);
            crate::objectid::lemma_objectid_round_trip(o, s, i + 11);
        },
        CodeV::NotSaved => {
            assert(w[0] == NOTSAVED@[0] && w[3] == NOTSAVED@[3]);
            crate::chars::lemma_keyword_at(s, i, NOTSAVED@);
        },
    }
}

/// Whether a text can be written and read back: not empty, and every
/// byte a `TEXT-CHAR`.
pub open spec fn writable_text(t: Seq<u8>) -> bool {
    t.len() > 0 && all_in(t, ByteClass::Text)
}

/// Whether `resp-text` can be written and read back: the code can, and
/// the text can. Without a code, the text does not begin with `[`, or it
/// could read as one.
pub open spec fn writable_resp_text(code: Option<CodeV>, t: Seq<u8>) -> bool {
    &&& writable_text(t)
    &&& match code {
        Some(c) => writable_code(c),
        None => t[0] != LBRACKET,
    }
}

/// `resp-text` written at `i`, and followed by a byte that is not a
/// `TEXT-CHAR`, reads back.
#[verifier::rlimit(100)]
proof fn lemma_resp_text_round_trip(code: Option<CodeV>, t: Seq<u8>, s: Seq<u8>, i: int)
    requires
        writable_resp_text(code, t),
        0 <= i,
        i + spec_write_resp_text(code, t).len() < s.len(),
        s.subrange(i, i + spec_write_resp_text(code, t).len()) == spec_write_resp_text(code, t),
        !ByteClass::Text.spec_has(s[i + spec_write_resp_text(code, t).len()]),
    ensures
        spec_resp_text(s, i) == Some(((code, t), i + spec_write_resp_text(code, t).len())),
{
    let w = spec_write_resp_text(code, t);
    let e = i + w.len();
    let j = e - t.len();
    assert(s[i] == w[0]);
    match code {
        Some(c) => {
            let wc = spec_write_code(c);
            crate::chars::lemma_part(s, i, w, 1, wc.len() as int);
            assert(w.subrange(1, 1 + wc.len() as int) =~= wc);
            assert(s[i + 1 + wc.len()] == w[1 + wc.len() as int]);
            assert(s[i + 2 + wc.len()] == w[2 + wc.len() as int]);
            lemma_code_round_trip(c, s, i + 1);
        },
        None => {},
    }
    crate::chars::lemma_part(s, i, w, j - i, t.len() as int);
    assert(w.subrange(j - i, w.len() as int) =~= t);
    assert forall|k: int| j <= k < e implies ByteClass::Text.spec_has(#[trigger] s[k]) by {
        assert(s[k] == s.subrange(j, e)[k - j]);
    }
    crate::chars::lemma_scan_end_of_run(s, j, e, ByteClass::Text);
}

/// A status body written at `i`, and followed by a byte that is not a
/// `TEXT-CHAR`, reads back.
proof fn lemma_cond_state_round_trip(b: StatusBodyV, s: Seq<u8>, i: int)
    requires
        writable_resp_text(b.code, b.text),
        0 <= i,
        i + spec_write_status_body(b).len() < s.len(),
        s.subrange(i, i + spec_write_status_body(b).len()) == spec_write_status_body(b),
        !ByteClass::Text.spec_has(s[i + spec_write_status_body(b).len()]),
    ensures
        spec_cond_state(s, i) == Some((b, i + spec_write_status_body(b).len())),
{
    let w = spec_write_status_body(b);
    let kw = spec_kind_name(b.kind);
    let rt = spec_write_resp_text(b.code, b.text);
    assert(s[i] == w[0]);
    assert(s[i + 1] == w[1]);
    crate::chars::lemma_part(s, i, w, 0, kw.len() as int);
    assert(w.subrange(0, kw.len() as int) =~= kw);
    crate::chars::lemma_keyword_at(s, i, kw);
    assert(s[i + kw.len()] == w[kw.len() as int]);
    crate::chars::lemma_part(s, i, w, kw.len() as int + 1, rt.len() as int);
    assert(w.subrange(kw.len() as int + 1, w.len() as int) =~= rt);
    lemma_resp_text_round_trip(b.code, b.text, s, i + kw.len() + 1);
}

/// Whether a status response can be written and read back: its tag, if
/// any, and its `resp-text` can.
pub open spec fn writable_status(st: StatusV) -> bool {
    match st {
        StatusV::Untagged(b) => writable_resp_text(b.code, b.text),
        StatusV::Tagged(t, b) => crate::command::writable_tag(t) && writable_resp_text(b.code, b.text),
        StatusV::Bye(c, t) => writable_resp_text(c, t),
    }
}

#[verifier::rlimit(100)]
proof fn lemma_untagged_status_round_trip(b: StatusBodyV)
    requires
        writable_resp_text(b.code, b.text),
    ensures
        spec_response(spec_write_response(ResponseV::Status(StatusV::Untagged(b))), 0) == Some((
            ResponseV::Status(StatusV::Untagged(b)),
            spec_write_response(ResponseV::Status(StatusV::Untagged(b))).len() as int,
        )),
{
    let s = spec_write_response(ResponseV::Status(StatusV::Untagged(b)));
    let w = spec_write_status_body(b);
    assert(s =~= seq![ASTERISK, SP] + w + seq![CR, LF]);
    assert(s.subrange(2, 2 + w.len() as int) =~= w);
    lemma_cond_state_round_trip(b, s, 2);
    lemma_untagged_route_state(s, 2, b, 2 + w.len() as int);
    assert(s[2 + w.len() as int] == CR && s[3 + w.len() as int] == LF);
}

/// `resp-cond-state` where it stands.
proof fn lemma_untagged_route_state(s: Seq<u8>, i: int, b: StatusBodyV, j: int)
    requires
        spec_cond_state(s, i) == Some((b, j)),
    ensures
        spec_untagged(s, i) == Some((ResponseV::Status(StatusV::Untagged(b)), j)),
{
    reveal(spec_untagged);
}

#[verifier::rlimit(100)]
proof fn lemma_tagged_status_round_trip(t: Seq<u8>, b: StatusBodyV)
    requires
        crate::command::writable_tag(t),
        writable_resp_text(b.code, b.text),
    ensures
        spec_response(spec_write_response(ResponseV::Status(StatusV::Tagged(t, b))), 0) == Some((
            ResponseV::Status(StatusV::Tagged(t, b)),
            spec_write_response(ResponseV::Status(StatusV::Tagged(t, b))).len() as int,
        )),
{
    let s = spec_write_response(ResponseV::Status(StatusV::Tagged(t, b)));
    let w = spec_write_status_body(b);
    assert(s =~= t + seq![SP] + w + seq![CR, LF]);
    assert(s[0] == t[0]);
    assert(ByteClass::Tag.spec_has(t[0]));
    assert forall|k: int| 0 <= k < t.len() implies ByteClass::Tag.spec_has(#[trigger] s[k]) by {
        assert(s[k] == t[k]);
    }
    assert(s[t.len() as int] == SP);
    crate::chars::lemma_scan_end_of_run(s, 0, t.len() as int, ByteClass::Tag);
    assert(s.subrange(0, t.len() as int) =~= t);
    let j = t.len() + 1;
    assert(s.subrange(j as int, j + w.len() as int) =~= w);
    lemma_cond_state_round_trip(b, s, j as int);
}

#[verifier::rlimit(100)]
proof fn lemma_bye_round_trip(c: Option<CodeV>, t: Seq<u8>)
    requires
        writable_resp_text(c, t),
    ensures
        spec_response(spec_write_response(ResponseV::Status(StatusV::Bye(c, t))), 0) == Some((
            ResponseV::Status(StatusV::Bye(c, t)),
            spec_write_response(ResponseV::Status(StatusV::Bye(c, t))).len() as int,
        )),
{
    let s = spec_write_response(ResponseV::Status(StatusV::Bye(c, t)));
    let w = spec_write_resp_text(c, t);
    assert(s =~= seq![ASTERISK, SP] + BYE_SP@ + w + seq![CR, LF]);
    lemma_kw_differs(s, 2, OK@, 0);
    lemma_kw_differs(s, 2, NO@, 0);
    lemma_kw_differs(s, 2, BAD@, 1);
    assert(s.subrange(2, 6) =~= BYE_SP@);
    crate::chars::lemma_keyword_at(s, 2, BYE_SP@);
    assert(s.subrange(6, 6 + w.len() as int) =~= w);
    lemma_resp_text_round_trip(c, t, s, 6);
    lemma_untagged_route_bye(s, 2, c, t, 6 + w.len() as int);
    assert(s[6 + w.len() as int] == CR && s[7 + w.len() as int] == LF);
}

/// `"BYE" SP resp-text` where no `resp-cond-state` stands.
proof fn lemma_untagged_route_bye(s: Seq<u8>, i: int, c: Option<CodeV>, t: Seq<u8>, j: int)
    requires
        spec_cond_state(s, i) is None,
        spec_keyword(s, i, BYE_SP@),
        spec_resp_text(s, i + 4) == Some(((c, t), j)),
    ensures
        spec_untagged(s, i) == Some((ResponseV::Status(StatusV::Bye(c, t)), j)),
{
    reveal(spec_untagged);
}

/// A status response that can be written reads back as itself from what
/// it is written as, the whole line consumed.
proof fn lemma_status_response_round_trip(st: StatusV)
    requires
        writable_status(st),
    ensures
        spec_response(spec_write_response(ResponseV::Status(st)), 0)
            == Some((ResponseV::Status(st), spec_write_response(ResponseV::Status(st)).len() as int)),
{
    match st {
        StatusV::Untagged(b) => lemma_untagged_status_round_trip(b),
        StatusV::Tagged(t, b) => lemma_tagged_status_round_trip(t, b),
        StatusV::Bye(c, t) => lemma_bye_round_trip(c, t),
    }
}

/// Atoms, each written after a space at `i`, and followed by CR, read
/// back.
proof fn lemma_preceded_atoms_round_trip(c: Seq<Seq<u8>>, s: Seq<u8>, i: int)
    requires
        crate::strings::writable_atoms(c),
        0 <= i,
        i + prefixed(written(AtomWriter, c), seq![SP]).len() < s.len(),
        s.subrange(i, i + prefixed(written(AtomWriter, c), seq![SP]).len()) == prefixed(written(AtomWriter, c), seq![SP]),
        s[i + prefixed(written(AtomWriter, c), seq![SP]).len()] == CR,
    ensures
        spec_preceded(AtomRule, s, i, SP) == (c, i + prefixed(written(AtomWriter, c), seq![SP]).len()),
{
    let ws = written(AtomWriter, c);
    let after = |b: u8| b == SP || b == CR;
    assert forall|k: int, q: int| 0 <= k < c.len() implies #[trigger] crate::rule::reads_at(AtomRule, s, q, c[k], ws[k], after) by {
        assert(ws[k] == c[k]);
        if 0 <= q && q + ws[k].len() < s.len() && s.subrange(q, q + ws[k].len()) == ws[k] && after(s[q + ws[k].len()]) {
            crate::strings::lemma_atom_round_trip(c[k], s, q);
        }
    }
    crate::rule::lemma_preceded_round_trip(AtomRule, c, ws, s, i, SP, after);
}

/// Numbers other than zero, each written after a space at `i`, and
/// followed by CR, read back.
proof fn lemma_preceded_nz_round_trip(n: Seq<u32>, s: Seq<u8>, i: int)
    requires
        forall|k: int| 0 <= k < n.len() ==> #[trigger] n[k] != 0,
        0 <= i,
        i + prefixed(written(crate::fetch::NzNumberWriter, n), seq![SP]).len() < s.len(),
        s.subrange(i, i + prefixed(written(crate::fetch::NzNumberWriter, n), seq![SP]).len())
            == prefixed(written(crate::fetch::NzNumberWriter, n), seq![SP]),
        s[i + prefixed(written(crate::fetch::NzNumberWriter, n), seq![SP]).len()] == CR,
    ensures
        spec_preceded(NzNumberRule, s, i, SP) == (n, i + prefixed(written(crate::fetch::NzNumberWriter, n), seq![SP]).len()),
{
    let ws = written(crate::fetch::NzNumberWriter, n);
    let after = |b: u8| b == SP || b == CR;
    assert forall|k: int, q: int| 0 <= k < n.len() implies #[trigger] crate::rule::reads_at(NzNumberRule, s, q, n[k], ws[k], after) by {
        assert(ws[k] == decimal(n[k] as nat));
        if 0 <= q && q + ws[k].len() < s.len() && s.subrange(q, q + ws[k].len()) == ws[k] && after(s[q + ws[k].len()]) {
            crate::num::lemma_nz_number_round_trip(n[k], s, q);
        }
    }
    crate::rule::lemma_preceded_round_trip(NzNumberRule, n, ws, s, i, SP, after);
}

/// Whether every string can be written and read back.
pub open spec fn writable_strs(v: Seq<StrV>) -> bool {
    forall|k: int| 0 <= k < v.len() ==> crate::strings::writable_str(#[trigger] v[k])
}

/// Strings, each written after a space at `i`, and followed by CR, read
/// back as `astring`s.
proof fn lemma_preceded_astrings_round_trip(v: Seq<StrV>, s: Seq<u8>, i: int)
    requires
        writable_strs(v),
        0 <= i,
        i + prefixed(written(AStringWriter, v), seq![SP]).len() < s.len(),
        s.subrange(i, i + prefixed(written(AStringWriter, v), seq![SP]).len()) == prefixed(written(AStringWriter, v), seq![SP]),
        s[i + prefixed(written(AStringWriter, v), seq![SP]).len()] == CR,
    ensures
        spec_preceded(AStringRule, s, i, SP) == (v, i + prefixed(written(AStringWriter, v), seq![SP]).len()),
{
    let ws = written(AStringWriter, v);
    let after = |b: u8| b == SP || b == CR;
    assert forall|k: int, q: int| 0 <= k < v.len() implies #[trigger] crate::rule::reads_at(AStringRule, s, q, v[k], ws[k], after) by {
        assert(ws[k] == crate::strings::spec_write_str(v[k]));
        if 0 <= q && q + ws[k].len() < s.len() && s.subrange(q, q + ws[k].len()) == ws[k] && after(s[q + ws[k].len()]) {
            crate::strings::lemma_astring_round_trip(v[k], s, q);
        }
    }
    crate::rule::lemma_preceded_round_trip(AStringRule, v, ws, s, i, SP, after);
}

/// Whether every identifier and its rights can be written and read back.
pub open spec fn writable_acl_entries(e: Seq<(StrV, StrV)>) -> bool {
    forall|k: int| 0 <= k < e.len() ==> crate::strings::writable_str((#[trigger] e[k]).0) && crate::strings::writable_str(e[k].1)
}

/// Identifiers and their rights, each written after a space at `i`, and
/// followed by CR, read back.
proof fn lemma_acl_entries_round_trip(e: Seq<(StrV, StrV)>, s: Seq<u8>, i: int)
    requires
        writable_acl_entries(e),
        0 <= i,
        i + prefixed(written(AclEntryWriter, e), seq![SP]).len() < s.len(),
        s.subrange(i, i + prefixed(written(AclEntryWriter, e), seq![SP]).len()) == prefixed(written(AclEntryWriter, e), seq![SP]),
        s[i + prefixed(written(AclEntryWriter, e), seq![SP]).len()] == CR,
    ensures
        spec_preceded(AclEntryRule, s, i, SP) == (e, i + prefixed(written(AclEntryWriter, e), seq![SP]).len()),
{
    let ws = written(AclEntryWriter, e);
    let after = |b: u8| b == SP || b == CR;
    assert forall|k: int, q: int| 0 <= k < e.len() implies #[trigger] crate::rule::reads_at(AclEntryRule, s, q, e[k], ws[k], after) by {
        let a = crate::strings::spec_write_str(e[k].0);
        let b = crate::strings::spec_write_str(e[k].1);
        assert(ws[k] == a + seq![SP] + b);
        if 0 <= q && q + ws[k].len() < s.len() && s.subrange(q, q + ws[k].len()) == ws[k] && after(s[q + ws[k].len()]) {
            crate::chars::lemma_part(s, q, ws[k], 0, a.len() as int);
            assert(ws[k].subrange(0, a.len() as int) =~= a);
            assert(s[q + a.len()] == ws[k][a.len() as int]);
            crate::strings::lemma_astring_round_trip(e[k].0, s, q);
            crate::chars::lemma_part(s, q, ws[k], a.len() as int + 1, b.len() as int);
            assert(ws[k].subrange(a.len() as int + 1, ws[k].len() as int) =~= b);
            crate::strings::lemma_astring_round_trip(e[k].1, s, q + a.len() + 1);
        }
    }
    crate::rule::lemma_preceded_round_trip(AclEntryRule, e, ws, s, i, SP, after);
}

/// Whether every status value can be written and read back.
pub open spec fn writable_status_vals(items: Seq<StatusDataItemV>) -> bool {
    forall|k: int| 0 <= k < items.len() ==> crate::status::writable_status_att_val(#[trigger] items[k])
}

/// Status values written in parentheses at `i` read back.
proof fn lemma_status_vals_round_trip(items: Seq<StatusDataItemV>, s: Seq<u8>, i: int)
    requires
        writable_status_vals(items),
        0 <= i,
        i + join(written(StatusAttValWriter, items), seq![SP]).len() + 2 <= s.len(),
        s.subrange(i, i + join(written(StatusAttValWriter, items), seq![SP]).len() + 2)
            == seq![LPAREN] + join(written(StatusAttValWriter, items), seq![SP]) + seq![RPAREN],
    ensures
        spec_paren_list(StatusAttValRule, s, i, true)
            == Some((items, i + join(written(StatusAttValWriter, items), seq![SP]).len() + 2)),
{
    let ws = written(StatusAttValWriter, items);
    let after = |b: u8| b == SP || b == RPAREN;
    assert forall|k: int, q: int| 0 <= k < items.len() implies #[trigger] crate::rule::reads_at(StatusAttValRule, s, q, items[k], ws[k], after) by {
        assert(ws[k] == crate::status::spec_write_status_att_val(items[k]));
        if 0 <= q && q + ws[k].len() < s.len() && s.subrange(q, q + ws[k].len()) == ws[k] && after(s[q + ws[k].len()]) {
            crate::status::lemma_status_att_val_round_trip(items[k], s, q);
        }
    }
    if items.len() == 0 {
        assert(join(ws, seq![SP]) == Seq::<u8>::empty());
        assert(s[i + 1] == (seq![LPAREN] + join(ws, seq![SP]) + seq![RPAREN])[1]);
        assert(s[i + 1] == RPAREN);
        lemma_kw_differs(s, i + 1, crate::status::MESSAGES_SP@, 0);
        lemma_kw_differs(s, i + 1, crate::status::RECENT_SP@, 0);
        lemma_kw_differs(s, i + 1, crate::status::UIDNEXT_SP@, 0);
        lemma_kw_differs(s, i + 1, crate::status::UIDVALIDITY_SP@, 0);
        lemma_kw_differs(s, i + 1, crate::status::UNSEEN_SP@, 0);
        lemma_kw_differs(s, i + 1, crate::status::DELETED_SP@, 0);
        lemma_kw_differs(s, i + 1, crate::status::MAILBOXID_SP_LPAREN@, 0);
    }
    crate::rule::lemma_paren_list_round_trip(StatusAttValRule, items, ws, s, i, true, after);
}

/// Whether a `mailbox-list` can be written and read back.
pub open spec fn writable_mailbox_list(items: Seq<Seq<u8>>, d: Option<u8>, m: MailboxV) -> bool {
    &&& crate::strings::writable_atoms(items)
    &&& (d matches Some(b) ==> is_text_char(b))
    &&& crate::mailbox::writable_mailbox(m)
}

/// A delimiter written at `i` reads back.
proof fn lemma_delimiter_round_trip(d: Option<u8>, s: Seq<u8>, i: int)
    requires
        d matches Some(b) ==> is_text_char(b),
        0 <= i,
        i + spec_write_delimiter(d).len() <= s.len(),
        s.subrange(i, i + spec_write_delimiter(d).len()) == spec_write_delimiter(d),
    ensures
        spec_delimiter(s, i) == Some((d, i + spec_write_delimiter(d).len())),
{
    let w = spec_write_delimiter(d);
    assert forall|k: int| 0 <= k < w.len() implies s[i + k] == #[trigger] w[k] by {
        assert(s[i + k] == s.subrange(i, i + w.len())[k]);
    }
    match d {
        Some(b) => {
            assert(w[0] == DQUOTE);
            if is_quoted_special(b) {
                assert(w[1] == BACKSLASH && w[2] == b && w[3] == DQUOTE);
            } else {
                assert(w[1] == b && w[2] == DQUOTE);
            }
        },
        None => {
            assert(w[0] == NIL@[0]);
            crate::chars::lemma_keyword_at(s, i, NIL@);
        },
    }
}

/// A `mailbox-list` written at `i`, and followed by CR, reads back.
proof fn lemma_mailbox_list_round_trip(items: Seq<Seq<u8>>, d: Option<u8>, m: MailboxV, s: Seq<u8>, i: int)
    requires
        writable_mailbox_list(items, d, m),
        0 <= i,
        i + spec_write_mailbox_list(items, d, m).len() < s.len(),
        s.subrange(i, i + spec_write_mailbox_list(items, d, m).len()) == spec_write_mailbox_list(items, d, m),
        s[i + spec_write_mailbox_list(items, d, m).len()] == CR || s[i + spec_write_mailbox_list(items, d, m).len()] == SP,
    ensures
        spec_mailbox_list(s, i) == Some(((items, d, m), i + spec_write_mailbox_list(items, d, m).len())),
{
    let w = spec_write_mailbox_list(items, d, m);
    let ws = written(NameAttrWriter, items);
    let jw = join(ws, seq![SP]);
    let wd = spec_write_delimiter(d);
    let wm = spec_write_mailbox(m);
    let after = |b: u8| b == SP || b == RPAREN;
    assert forall|k: int, q: int| 0 <= k < items.len() implies #[trigger] crate::rule::reads_at(NameAttrRule, s, q, items[k], ws[k], after) by {
        assert(ws[k] == seq![BACKSLASH] + items[k]);
        if 0 <= q && q + ws[k].len() < s.len() && s.subrange(q, q + ws[k].len()) == ws[k] && after(s[q + ws[k].len()]) {
            assert(s[q] == ws[k][0]);
            crate::chars::lemma_part(s, q, ws[k], 1, items[k].len() as int);
            assert(ws[k].subrange(1, ws[k].len() as int) =~= items[k]);
            crate::strings::lemma_atom_round_trip(items[k], s, q + 1);
        }
    }
    let n = jw.len() as int;
    crate::chars::lemma_part(s, i, w, 0, n + 2);
    assert(w.subrange(0, n + 2) =~= seq![LPAREN] + jw + seq![RPAREN]);
    if items.len() == 0 {
        assert(jw == Seq::<u8>::empty());
        assert(s[i + 1] == w[1]);
    }
    crate::rule::lemma_paren_list_round_trip(NameAttrRule, items, ws, s, i, true, after);
    let j = i + n + 2;
    assert(s[j] == w[n + 2]);
    crate::chars::lemma_part(s, i, w, n + 3, wd.len() as int);
    assert(w.subrange(n + 3, n + 3 + wd.len() as int) =~= wd);
    lemma_delimiter_round_trip(d, s, j + 1);
    let k = j + 1 + wd.len();
    assert(s[k] == w[k - i]);
    crate::chars::lemma_part(s, i, w, k + 1 - i, wm.len() as int);
    assert(w.subrange(k + 1 - i, w.len() as int) =~= wm);
    crate::mailbox::lemma_mailbox_round_trip(m, s, k + 1);
}

/// The line of an untagged data response holds the data's bytes after
/// `"*" SP`.
proof fn lemma_data_line(d: DataV)
    ensures
        spec_write_response(ResponseV::Data(d)) == seq![ASTERISK, SP] + spec_write_data(d) + seq![CR, LF],
        forall|k: int| 0 <= k < spec_write_data(d).len()
            ==> spec_write_response(ResponseV::Data(d))[2 + k] == #[trigger] spec_write_data(d)[k],
        spec_write_response(ResponseV::Data(d))[2 + spec_write_data(d).len() as int] == CR,
{
    let s = spec_write_response(ResponseV::Data(d));
    let wd = spec_write_data(d);
    assert(s =~= seq![ASTERISK, SP] + wd + seq![CR, LF]);
}

/// `mailbox-data` reads `FLAGS` where it stands.
proof fn lemma_mbx_route_flags(s: Seq<u8>, i: int, fs: Seq<FlagV>, j: int)
    requires
        spec_keyword(s, i, FLAGS_SP@),
        spec_flag_list(s, i + 6) == Some((fs, j)),
    ensures
        spec_mailbox_data(s, i) == Some((DataV::Flags(fs), j)),
{
    reveal(spec_mailbox_data);
}

/// `mailbox-data` reads a `LIST` where its word stands and no `FLAGS`.
proof fn lemma_mbx_route_list(s: Seq<u8>, i: int)
    requires
        !spec_keyword(s, i, FLAGS_SP@),
        spec_list_data(s, i) is Some,
    ensures
        spec_mailbox_data(s, i) == spec_list_data(s, i),
{
    reveal(spec_mailbox_data);
}

/// `mailbox-data` reads an `LSUB` where its word stands and no earlier one.
proof fn lemma_mbx_route_lsub(s: Seq<u8>, i: int, items: Seq<Seq<u8>>, d: Option<u8>, m: MailboxV, j: int)
    requires
        !spec_keyword(s, i, FLAGS_SP@),
        !spec_keyword(s, i, LIST_SP@),
        spec_keyword(s, i, LSUB_SP@),
        spec_mailbox_list(s, i + 5) == Some(((items, d, m), j)),
    ensures
        spec_mailbox_data(s, i) == Some((DataV::Lsub { items, delimiter: d, mailbox: m }, j)),
{
    reveal(spec_mailbox_data);
}

/// `mailbox-data` reads a `SEARCH` where its word stands and no earlier
/// one.
proof fn lemma_mbx_route_search(s: Seq<u8>, i: int)
    requires
        !spec_keyword(s, i, FLAGS_SP@),
        !spec_keyword(s, i, LIST_SP@),
        !spec_keyword(s, i, LSUB_SP@),
        spec_keyword(s, i, crate::search_return::SEARCH@),
    ensures
        spec_mailbox_data(s, i) == Some((
            DataV::Search(spec_preceded(NzNumberRule, s, i + 6, SP).0),
            spec_preceded(NzNumberRule, s, i + 6, SP).1,
        )),
{
    reveal(spec_mailbox_data);
}

/// `mailbox-data` reads a `SORT` where its word stands and no earlier one.
proof fn lemma_mbx_route_sort(s: Seq<u8>, i: int)
    requires
        !spec_keyword(s, i, FLAGS_SP@),
        !spec_keyword(s, i, LIST_SP@),
        !spec_keyword(s, i, LSUB_SP@),
        !spec_keyword(s, i, crate::search_return::SEARCH@),
        spec_keyword(s, i, SORT@),
    ensures
        spec_mailbox_data(s, i) == Some((
            DataV::Sort(spec_preceded(NzNumberRule, s, i + 4, SP).0),
            spec_preceded(NzNumberRule, s, i + 4, SP).1,
        )),
{
    reveal(spec_mailbox_data);
}

/// `mailbox-data` reads a `STATUS` where it stands and no earlier one.
proof fn lemma_mbx_route_status(s: Seq<u8>, i: int, m: MailboxV, j: int, items: Seq<StatusDataItemV>, k: int)
    requires
        !spec_keyword(s, i, FLAGS_SP@),
        !spec_keyword(s, i, LIST_SP@),
        !spec_keyword(s, i, LSUB_SP@),
        !spec_keyword(s, i, crate::search_return::SEARCH@),
        !spec_keyword(s, i, SORT@),
        !spec_keyword(s, i, crate::search_return::ESEARCH@),
        spec_keyword(s, i, STATUS_W@),
        spec_byte(s, i + 6, SP),
        spec_mailbox(s, i + 7) == Some((m, j)),
        spec_byte(s, j, SP),
        spec_paren_list(StatusAttValRule, s, j + 1, true) == Some((items, k)),
    ensures
        spec_mailbox_data(s, i) == Some((DataV::Status { mailbox: m, items }, k)),
{
    reveal(spec_mailbox_data);
}

/// Where none of the words of `mailbox-data` stands, what it reads is a
/// number followed by `EXISTS` or `RECENT`.
proof fn lemma_mbx_route_number(s: Seq<u8>, i: int)
    requires
        !spec_keyword(s, i, FLAGS_SP@),
        !spec_keyword(s, i, LIST_SP@),
        !spec_keyword(s, i, LSUB_SP@),
        !spec_keyword(s, i, crate::search_return::SEARCH@),
        !spec_keyword(s, i, SORT@),
        !spec_keyword(s, i, crate::search_return::ESEARCH@),
        !spec_keyword(s, i, STATUS_W@),
    ensures
        spec_mailbox_data(s, i) == match spec_number(s, i) {
            Some((n, j)) => if spec_keyword(s, j, SP_EXISTS@) {
                Some((DataV::Exists(n), j + 7))
            } else if spec_keyword(s, j, SP_RECENT@) {
                Some((DataV::Recent(n), j + 7))
            } else {
                None
            },
            None => None,
        },
{
    reveal(spec_mailbox_data);
}

/// The other data rules read an `ACL` where it stands.
proof fn lemma_other_route_acl(s: Seq<u8>, i: int)
    requires
        spec_acl_data(s, i) is Some,
    ensures
        spec_other_data(s, i) == spec_acl_data(s, i),
{
    reveal(spec_other_data);
}

/// The other data rules read a `LISTRIGHTS` where it stands and no `ACL`.
proof fn lemma_other_route_listrights(s: Seq<u8>, i: int)
    requires
        spec_acl_data(s, i) is None,
        spec_listrights_data(s, i) is Some,
    ensures
        spec_other_data(s, i) == spec_listrights_data(s, i),
{
    reveal(spec_other_data);
}

/// The other data rules read a `MYRIGHTS` where it stands and no earlier
/// one.
proof fn lemma_other_route_myrights(s: Seq<u8>, i: int)
    requires
        spec_acl_data(s, i) is None,
        spec_listrights_data(s, i) is None,
        spec_myrights_data(s, i) is Some,
    ensures
        spec_other_data(s, i) == spec_myrights_data(s, i),
{
    reveal(spec_other_data);
}

/// The other data rules read a `GENURLAUTH` where it stands and no earlier
/// one.
proof fn lemma_other_route_genurlauth(s: Seq<u8>, i: int, v: Seq<StrV>, j: int)
    requires
        spec_acl_data(s, i) is None,
        spec_listrights_data(s, i) is None,
        spec_myrights_data(s, i) is None,
        crate::urlauth::spec_genurlauth_data(s, i) == Some((v, j)),
    ensures
        spec_other_data(s, i) == Some((DataV::GenUrlAuth { urls: v }, j)),
{
    reveal(spec_other_data);
}

/// The other data rules read `message-data` where it stands and no earlier
/// one.
proof fn lemma_other_route_message(s: Seq<u8>, i: int)
    requires
        spec_acl_data(s, i) is None,
        spec_listrights_data(s, i) is None,
        spec_myrights_data(s, i) is None,
        crate::urlauth::spec_genurlauth_data(s, i) is None,
        crate::urlauth::spec_urlfetch_data(s, i) is None,
        spec_message_data(s, i) is Some,
    ensures
        spec_other_data(s, i) == spec_message_data(s, i),
{
    reveal(spec_other_data);
}

/// The other data rules read a `CAPABILITY` where it stands and no earlier
/// one.
proof fn lemma_other_route_capability(s: Seq<u8>, i: int)
    requires
        spec_acl_data(s, i) is None,
        spec_listrights_data(s, i) is None,
        spec_myrights_data(s, i) is None,
        crate::urlauth::spec_genurlauth_data(s, i) is None,
        crate::urlauth::spec_urlfetch_data(s, i) is None,
        spec_message_data(s, i) is None,
        spec_keyword(s, i, CAPABILITY@),
        spec_preceded(AtomRule, s, i + 10, SP).0.len() > 0,
    ensures
        spec_other_data(s, i) == Some((
            DataV::Capability(spec_preceded(AtomRule, s, i + 10, SP).0),
            spec_preceded(AtomRule, s, i + 10, SP).1,
        )),
{
    reveal(spec_other_data);
}

/// An untagged line whose data does not begin with the word of a status
/// response reads as the data that `mailbox-data` or the other data rules
/// read, where that ends the line.
#[verifier::rlimit(100)]
proof fn lemma_data_route(d: DataV)
    requires
        spec_write_data(d).len() > 0,
        crate::chars::to_lower(spec_write_data(d)[0]) != 111,
        crate::chars::to_lower(spec_write_data(d)[0]) != 110,
        crate::chars::to_lower(spec_write_data(d)[0]) != 98,
        crate::search::alt(
            spec_mailbox_data(spec_write_response(ResponseV::Data(d)), 2),
            spec_other_data(spec_write_response(ResponseV::Data(d)), 2),
        ) == Some((d, 2 + spec_write_data(d).len() as int)),
    ensures
        spec_response(spec_write_response(ResponseV::Data(d)), 0)
            == Some((ResponseV::Data(d), spec_write_response(ResponseV::Data(d)).len() as int)),
{
    reveal(spec_untagged);
    let s = spec_write_response(ResponseV::Data(d));
    let wd = spec_write_data(d);
    lemma_data_line(d);
    assert(s[2] == wd[0]);
    lemma_kw_differs(s, 2, OK@, 0);
    lemma_kw_differs(s, 2, NO@, 0);
    lemma_kw_differs(s, 2, BAD@, 0);
    lemma_kw_differs(s, 2, BYE_SP@, 0);
    assert(s[2 + wd.len() as int + 1] == LF);
}

/// Where the first byte is no digit and begins none of the words of
/// `mailbox-data`, no `mailbox-data` stands.
proof fn lemma_no_mailbox_data(s: Seq<u8>, i: int)
    requires
        0 <= i < s.len(),
        !crate::chars::is_digit(s[i]),
        crate::chars::to_lower(s[i]) != 102,
        crate::chars::to_lower(s[i]) != 108,
        crate::chars::to_lower(s[i]) != 115,
        crate::chars::to_lower(s[i]) != 101,
    ensures
        spec_mailbox_data(s, i) is None,
{
    reveal(spec_mailbox_data);
    lemma_kw_differs(s, i, FLAGS_SP@, 0);
    lemma_kw_differs(s, i, LIST_SP@, 0);
    lemma_kw_differs(s, i, LSUB_SP@, 0);
    lemma_kw_differs(s, i, crate::search_return::SEARCH@, 0);
    lemma_kw_differs(s, i, SORT@, 0);
    lemma_kw_differs(s, i, crate::search_return::ESEARCH@, 0);
    lemma_kw_differs(s, i, STATUS_W@, 0);
}

/// Where the first byte begins none of the words of the other data rules
/// that come before `message-data`, those rules read nothing.
proof fn lemma_no_other_words(s: Seq<u8>, i: int)
    requires
        0 <= i < s.len(),
        crate::chars::to_lower(s[i]) != 97,
        crate::chars::to_lower(s[i]) != 108,
        crate::chars::to_lower(s[i]) != 109,
        crate::chars::to_lower(s[i]) != 103,
        crate::chars::to_lower(s[i]) != 117,
    ensures
        spec_acl_data(s, i) is None,
        spec_listrights_data(s, i) is None,
        spec_myrights_data(s, i) is None,
        crate::urlauth::spec_genurlauth_data(s, i) is None,
        crate::urlauth::spec_urlfetch_data(s, i) is None,
{
    lemma_kw_differs(s, i, crate::command::ACL_SP@, 0);
    lemma_kw_differs(s, i, crate::command::LISTRIGHTS_SP@, 0);
    lemma_kw_differs(s, i, crate::command::MYRIGHTS_SP@, 0);
    lemma_kw_differs(s, i, crate::urlauth::GENURLAUTH@, 0);
    lemma_kw_differs(s, i, crate::urlauth::URLFETCH@, 0);
}

#[verifier::rlimit(100)]
proof fn lemma_capability_round_trip(c: Seq<Seq<u8>>)
    requires
        c.len() > 0,
        crate::strings::writable_atoms(c),
    ensures
        spec_response(spec_write_response(ResponseV::Data(DataV::Capability(c))), 0) == Some((
            ResponseV::Data(DataV::Capability(c)),
            spec_write_response(ResponseV::Data(DataV::Capability(c))).len() as int,
        )),
{
    let d = DataV::Capability(c);
    let s = spec_write_response(ResponseV::Data(d));
    let wd = spec_write_data(d);
    let pw = prefixed(written(AtomWriter, c), seq![SP]);
    lemma_data_line(d);
    assert(wd[0] == CAPABILITY@[0]);
    lemma_no_mailbox_data(s, 2);
    lemma_no_other_words(s, 2);
    assert(s.subrange(2, 12) =~= CAPABILITY@);
    crate::chars::lemma_keyword_at(s, 2, CAPABILITY@);
    assert(s.subrange(12, 12 + pw.len() as int) =~= pw);
    lemma_preceded_atoms_round_trip(c, s, 12);
    lemma_other_route_capability(s, 2);
    lemma_data_route(d);
}

#[verifier::rlimit(100)]
proof fn lemma_exists_round_trip(n: u32)
    requires
    ensures
        spec_response(spec_write_response(ResponseV::Data(DataV::Exists(n))), 0) == Some((
            ResponseV::Data(DataV::Exists(n)),
            spec_write_response(ResponseV::Data(DataV::Exists(n))).len() as int,
        )),
{
    let d = DataV::Exists(n);
    let s = spec_write_response(ResponseV::Data(d));
    let wd = spec_write_data(d);
    let dn = decimal(n as nat);
    lemma_data_line(d);
    crate::num::lemma_decimal(n as nat);
    assert(wd[0] == dn[0]);
    assert(s.subrange(2, 2 + dn.len() as int) =~= dn);
    crate::num::lemma_number_round_trip(n, s, 2);
    assert(s.subrange(2 + dn.len() as int, 9 + dn.len() as int) =~= SP_EXISTS@);
    crate::chars::lemma_keyword_at(s, 2 + dn.len() as int, SP_EXISTS@);
    lemma_kw_differs(s, 2, FLAGS_SP@, 0);
    lemma_kw_differs(s, 2, LIST_SP@, 0);
    lemma_kw_differs(s, 2, LSUB_SP@, 0);
    lemma_kw_differs(s, 2, crate::search_return::SEARCH@, 0);
    lemma_kw_differs(s, 2, SORT@, 0);
    lemma_kw_differs(s, 2, crate::search_return::ESEARCH@, 0);
    lemma_kw_differs(s, 2, STATUS_W@, 0);
    lemma_mbx_route_number(s, 2);
    lemma_data_route(d);
}

#[verifier::rlimit(100)]
proof fn lemma_recent_round_trip(n: u32)
    requires
    ensures
        spec_response(spec_write_response(ResponseV::Data(DataV::Recent(n))), 0) == Some((
            ResponseV::Data(DataV::Recent(n)),
            spec_write_response(ResponseV::Data(DataV::Recent(n))).len() as int,
        )),
{
    let d = DataV::Recent(n);
    let s = spec_write_response(ResponseV::Data(d));
    let wd = spec_write_data(d);
    let dn = decimal(n as nat);
    lemma_data_line(d);
    crate::num::lemma_decimal(n as nat);
    assert(wd[0] == dn[0]);
    assert(s.subrange(2, 2 + dn.len() as int) =~= dn);
    crate::num::lemma_number_round_trip(n, s, 2);
    assert(s.subrange(2 + dn.len() as int, 9 + dn.len() as int) =~= SP_RECENT@);
    crate::chars::lemma_keyword_at(s, 2 + dn.len() as int, SP_RECENT@);
    lemma_kw_differs(s, 2 + dn.len() as int, SP_EXISTS@, 1);
    lemma_kw_differs(s, 2, FLAGS_SP@, 0);
    lemma_kw_differs(s, 2, LIST_SP@, 0);
    lemma_kw_differs(s, 2, LSUB_SP@, 0);
    lemma_kw_differs(s, 2, crate::search_return::SEARCH@, 0);
    lemma_kw_differs(s, 2, SORT@, 0);
    lemma_kw_differs(s, 2, crate::search_return::ESEARCH@, 0);
    lemma_kw_differs(s, 2, STATUS_W@, 0);
    lemma_mbx_route_number(s, 2);
    lemma_data_route(d);
}

#[verifier::rlimit(100)]
proof fn lemma_expunge_round_trip(n: u32)
    requires
        n != 0,
    ensures
        spec_response(spec_write_response(ResponseV::Data(DataV::Expunge(n))), 0) == Some((
            ResponseV::Data(DataV::Expunge(n)),
            spec_write_response(ResponseV::Data(DataV::Expunge(n))).len() as int,
        )),
{
    let d = DataV::Expunge(n);
    let s = spec_write_response(ResponseV::Data(d));
    let wd = spec_write_data(d);
    let dn = decimal(n as nat);
    lemma_data_line(d);
    crate::num::lemma_decimal(n as nat);
    assert(wd[0] == dn[0]);
    assert(s.subrange(2, 2 + dn.len() as int) =~= dn);
    crate::num::lemma_number_round_trip(n, s, 2);
    let j = 2 + dn.len() as int;
    assert(s[j] == SP);
    assert(s.subrange(j + 1, j + 8) =~= EXPUNGE@);
    crate::chars::lemma_keyword_at(s, j + 1, EXPUNGE@);
    lemma_kw_differs(s, j, SP_EXISTS@, 3);
    lemma_kw_differs(s, j, SP_RECENT@, 1);
    lemma_kw_differs(s, 2, FLAGS_SP@, 0);
    lemma_kw_differs(s, 2, LIST_SP@, 0);
    lemma_kw_differs(s, 2, LSUB_SP@, 0);
    lemma_kw_differs(s, 2, crate::search_return::SEARCH@, 0);
    lemma_kw_differs(s, 2, SORT@, 0);
    lemma_kw_differs(s, 2, crate::search_return::ESEARCH@, 0);
    lemma_kw_differs(s, 2, STATUS_W@, 0);
    lemma_mbx_route_number(s, 2);
    lemma_no_other_words(s, 2);
    lemma_other_route_message(s, 2);
    lemma_data_route(d);
}

/// A `FETCH` data response reads back.
#[verifier::rlimit(100)]
#[verifier::spinoff_prover]
proof fn lemma_fetch_data_round_trip(n: u32, items: Seq<MessageDataItemV>)
    requires
        n != 0,
        crate::fetch::writable_msg_att(items),
    ensures
        spec_response(spec_write_response(ResponseV::Data(DataV::Fetch { seq: n, items })), 0) == Some((
            ResponseV::Data(DataV::Fetch { seq: n, items }),
            spec_write_response(ResponseV::Data(DataV::Fetch { seq: n, items })).len() as int,
        )),
{
    let d = DataV::Fetch { seq: n, items };
    let s = spec_write_response(ResponseV::Data(d));
    let wd = spec_write_data(d);
    let dn = decimal(n as nat);
    let jw = join(written(MsgAttItemWriter, items), seq![SP]);
    lemma_data_line(d);
    crate::num::lemma_decimal(n as nat);
    assert(wd =~= dn + seq![SP] + FETCH_SP@ + (seq![LPAREN] + jw + seq![RPAREN]));
    assert(wd[0] == dn[0]);
    assert(s.subrange(2, 2 + dn.len() as int) =~= dn);
    let j = 2 + dn.len() as int;
    assert(s[j] == wd[dn.len() as int]);
    crate::num::lemma_nz_number_round_trip(n, s, 2);
    crate::num::lemma_number_round_trip(n, s, 2);
    assert(s.subrange(j + 1, j + 7) =~= FETCH_SP@);
    crate::chars::lemma_keyword_at(s, j + 1, FETCH_SP@);
    assert(s[j + 1] == FETCH_SP@[0]);
    lemma_kw_differs(s, j + 1, EXPUNGE@, 0);
    assert(s.subrange(j + 7, j + 7 + jw.len() + 2) =~= seq![LPAREN] + jw + seq![RPAREN]);
    crate::fetch::lemma_msg_att_round_trip(items, s, j + 7);
    lemma_kw_differs(s, j, SP_EXISTS@, 1);
    lemma_kw_differs(s, j, SP_RECENT@, 1);
    lemma_kw_differs(s, 2, FLAGS_SP@, 0);
    lemma_kw_differs(s, 2, LIST_SP@, 0);
    lemma_kw_differs(s, 2, LSUB_SP@, 0);
    lemma_kw_differs(s, 2, crate::search_return::SEARCH@, 0);
    lemma_kw_differs(s, 2, SORT@, 0);
    lemma_kw_differs(s, 2, crate::search_return::ESEARCH@, 0);
    lemma_kw_differs(s, 2, STATUS_W@, 0);
    lemma_mbx_route_number(s, 2);
    lemma_no_other_words(s, 2);
    lemma_other_route_message(s, 2);
    lemma_data_route(d);
}

#[verifier::rlimit(100)]
proof fn lemma_search_round_trip(n: Seq<u32>)
    requires
        forall|k: int| 0 <= k < n.len() ==> #[trigger] n[k] != 0,
    ensures
        spec_response(spec_write_response(ResponseV::Data(DataV::Search(n))), 0) == Some((
            ResponseV::Data(DataV::Search(n)),
            spec_write_response(ResponseV::Data(DataV::Search(n))).len() as int,
        )),
{
    let d = DataV::Search(n);
    let s = spec_write_response(ResponseV::Data(d));
    let wd = spec_write_data(d);
    let pw = prefixed(written(crate::fetch::NzNumberWriter, n), seq![SP]);
    lemma_data_line(d);
    assert(wd[0] == crate::search_return::SEARCH@[0]);
    assert(s.subrange(2, 8) =~= crate::search_return::SEARCH@);
    crate::chars::lemma_keyword_at(s, 2, crate::search_return::SEARCH@);
    assert(s.subrange(8, 8 + pw.len() as int) =~= pw);
    lemma_preceded_nz_round_trip(n, s, 8);
    lemma_kw_differs(s, 2, FLAGS_SP@, 0);
    lemma_kw_differs(s, 2, LIST_SP@, 0);
    lemma_kw_differs(s, 2, LSUB_SP@, 0);
    lemma_mbx_route_search(s, 2);
    lemma_data_route(d);
}

#[verifier::rlimit(100)]
proof fn lemma_sort_round_trip(n: Seq<u32>)
    requires
        forall|k: int| 0 <= k < n.len() ==> #[trigger] n[k] != 0,
    ensures
        spec_response(spec_write_response(ResponseV::Data(DataV::Sort(n))), 0) == Some((
            ResponseV::Data(DataV::Sort(n)),
            spec_write_response(ResponseV::Data(DataV::Sort(n))).len() as int,
        )),
{
    let d = DataV::Sort(n);
    let s = spec_write_response(ResponseV::Data(d));
    let wd = spec_write_data(d);
    let pw = prefixed(written(crate::fetch::NzNumberWriter, n), seq![SP]);
    lemma_data_line(d);
    assert(wd[0] == SORT@[0] && wd[1] == SORT@[1]);
    assert(s.subrange(2, 6) =~= SORT@);
    crate::chars::lemma_keyword_at(s, 2, SORT@);
    assert(s.subrange(6, 6 + pw.len() as int) =~= pw);
    lemma_preceded_nz_round_trip(n, s, 6);
    lemma_kw_differs(s, 2, FLAGS_SP@, 0);
    lemma_kw_differs(s, 2, LIST_SP@, 0);
    lemma_kw_differs(s, 2, LSUB_SP@, 0);
    lemma_kw_differs(s, 2, crate::search_return::SEARCH@, 1);
    lemma_mbx_route_sort(s, 2);
    lemma_data_route(d);
}

#[verifier::rlimit(100)]
proof fn lemma_my_rights_data_round_trip(m: MailboxV, r: StrV)
    requires
        crate::mailbox::writable_mailbox(m),
        crate::strings::writable_str(r),
    ensures
        spec_response(spec_write_response(ResponseV::Data(DataV::MyRights { mailbox: m, rights: r })), 0) == Some((
            ResponseV::Data(DataV::MyRights { mailbox: m, rights: r }),
            spec_write_response(ResponseV::Data(DataV::MyRights { mailbox: m, rights: r })).len() as int,
        )),
{
    let d = DataV::MyRights { mailbox: m, rights: r };
    let s = spec_write_response(ResponseV::Data(d));
    let wd = spec_write_data(d);
    let w = spec_write_mailbox(m) + seq![SP] + crate::strings::spec_write_str(r);
    lemma_data_line(d);
    assert(wd[0] == crate::command::MYRIGHTS_SP@[0]);
    assert(s.subrange(2, 11) =~= crate::command::MYRIGHTS_SP@);
    crate::chars::lemma_keyword_at(s, 2, crate::command::MYRIGHTS_SP@);
    assert(s.subrange(11, 11 + w.len() as int) =~= w);
    crate::acl::lemma_mailbox_astring_round_trip(m, r, s, 11);
    lemma_no_mailbox_data(s, 2);
    lemma_kw_differs(s, 2, crate::command::ACL_SP@, 0);
    lemma_kw_differs(s, 2, crate::command::LISTRIGHTS_SP@, 0);
    lemma_other_route_myrights(s, 2);
    lemma_data_route(d);
}

/// The body of a `STATUS` data response reads back where it was written.
#[verifier::rlimit(100)]
proof fn lemma_status_data_body(m: MailboxV, items: Seq<StatusDataItemV>, s: Seq<u8>)
    requires
        crate::mailbox::writable_mailbox(m),
        writable_status_vals(items),
        s == spec_write_response(ResponseV::Data(DataV::Status { mailbox: m, items })),
    ensures
        spec_mailbox_data(s, 2) == Some((DataV::Status { mailbox: m, items }, s.len() - 2)),
{
    let d = DataV::Status { mailbox: m, items };
    let wd = spec_write_data(d);
    let wm = spec_write_mailbox(m);
    let jw = join(written(StatusAttValWriter, items), seq![SP]);
    lemma_data_line(d);
    assert(s.subrange(2, 8) =~= STATUS_W@);
    crate::chars::lemma_keyword_at(s, 2, STATUS_W@);
    assert(s[8] == wd[6]);
    assert(s.subrange(9, 9 + wm.len() as int) =~= wm);
    assert(s[9 + wm.len() as int] == wd[7 + wm.len() as int]);
    crate::mailbox::lemma_mailbox_round_trip(m, s, 9);
    let j = 10 + wm.len() as int;
    assert(s.subrange(j, j + jw.len() as int + 2) =~= seq![LPAREN] + jw + seq![RPAREN]);
    lemma_status_vals_round_trip(items, s, j);
    assert(wd[0] == STATUS_W@[0] && wd[1] == STATUS_W@[1]);
    lemma_kw_differs(s, 2, FLAGS_SP@, 0);
    lemma_kw_differs(s, 2, LIST_SP@, 0);
    lemma_kw_differs(s, 2, LSUB_SP@, 0);
    lemma_kw_differs(s, 2, crate::search_return::SEARCH@, 1);
    lemma_kw_differs(s, 2, SORT@, 1);
    lemma_kw_differs(s, 2, crate::search_return::ESEARCH@, 0);
    lemma_mbx_route_status(s, 2, m, 9 + wm.len() as int, items, s.len() - 2);
}

#[verifier::rlimit(100)]
proof fn lemma_status_data_round_trip(m: MailboxV, items: Seq<StatusDataItemV>)
    requires
        crate::mailbox::writable_mailbox(m),
        writable_status_vals(items),
    ensures
        spec_response(spec_write_response(ResponseV::Data(DataV::Status { mailbox: m, items })), 0) == Some((
            ResponseV::Data(DataV::Status { mailbox: m, items }),
            spec_write_response(ResponseV::Data(DataV::Status { mailbox: m, items })).len() as int,
        )),
{
    let d = DataV::Status { mailbox: m, items };
    let s = spec_write_response(ResponseV::Data(d));
    let wd = spec_write_data(d);
    lemma_data_line(d);
    assert(wd[0] == STATUS_W@[0] && wd[1] == STATUS_W@[1]);
    lemma_status_data_body(m, items, s);
    lemma_data_route(d);
}

#[verifier::rlimit(100)]
proof fn lemma_acl_data_round_trip(m: MailboxV, entries: Seq<(StrV, StrV)>)
    requires
        crate::mailbox::writable_mailbox(m),
        writable_acl_entries(entries),
    ensures
        spec_response(spec_write_response(ResponseV::Data(DataV::Acl { mailbox: m, entries })), 0) == Some((
            ResponseV::Data(DataV::Acl { mailbox: m, entries }),
            spec_write_response(ResponseV::Data(DataV::Acl { mailbox: m, entries })).len() as int,
        )),
{
    let d = DataV::Acl { mailbox: m, entries };
    let s = spec_write_response(ResponseV::Data(d));
    let wd = spec_write_data(d);
    let wm = spec_write_mailbox(m);
    let pw = prefixed(written(AclEntryWriter, entries), seq![SP]);
    lemma_data_line(d);
    assert(wd[0] == crate::command::ACL_SP@[0]);
    assert(s.subrange(2, 6) =~= crate::command::ACL_SP@);
    crate::chars::lemma_keyword_at(s, 2, crate::command::ACL_SP@);
    assert(s.subrange(6, 6 + wm.len() as int) =~= wm);
    let j = 6 + wm.len() as int;
    assert(wd.subrange(4 + wm.len() as int, wd.len() as int) =~= pw);
    if entries.len() > 0 {
        crate::rule::lemma_prefixed_front(written(AclEntryWriter, entries), seq![SP]);
        assert(s[j] == wd[4 + wm.len() as int]);
    }
    crate::mailbox::lemma_mailbox_round_trip(m, s, 6);
    assert(s.subrange(j, j + pw.len() as int) =~= pw);
    lemma_acl_entries_round_trip(entries, s, j);
    lemma_no_mailbox_data(s, 2);
    lemma_other_route_acl(s, 2);
    lemma_data_route(d);
}

#[verifier::rlimit(100)]
proof fn lemma_list_rights_data_round_trip(m: MailboxV, id: StrV, req: StrV, opt: Seq<StrV>)
    requires
        crate::mailbox::writable_mailbox(m),
        crate::strings::writable_str(id),
        crate::strings::writable_str(req),
        writable_strs(opt),
    ensures
        spec_response(spec_write_response(ResponseV::Data(DataV::ListRights { mailbox: m, identifier: id, required: req, optional: opt })), 0) == Some((
            ResponseV::Data(DataV::ListRights { mailbox: m, identifier: id, required: req, optional: opt }),
            spec_write_response(ResponseV::Data(DataV::ListRights { mailbox: m, identifier: id, required: req, optional: opt })).len() as int,
        )),
{
    let d = DataV::ListRights { mailbox: m, identifier: id, required: req, optional: opt };
    let s = spec_write_response(ResponseV::Data(d));
    let wd = spec_write_data(d);
    let w = spec_write_mailbox(m) + seq![SP] + crate::strings::spec_write_str(id);
    let wr = crate::strings::spec_write_str(req);
    let pw = prefixed(written(AStringWriter, opt), seq![SP]);
    lemma_data_line(d);
    assert(wd[0] == crate::command::LISTRIGHTS_SP@[0] && wd[1] == crate::command::LISTRIGHTS_SP@[1]);
    assert(wd[4] == crate::command::LISTRIGHTS_SP@[4]);
    assert(s.subrange(2, 13) =~= crate::command::LISTRIGHTS_SP@);
    crate::chars::lemma_keyword_at(s, 2, crate::command::LISTRIGHTS_SP@);
    assert(s.subrange(13, 13 + w.len() as int) =~= w);
    let k = 13 + w.len() as int;
    assert(s[k] == wd[11 + w.len() as int]);
    crate::acl::lemma_mailbox_astring_round_trip(m, id, s, 13);
    assert(s.subrange(k + 1, k + 1 + wr.len() as int) =~= wr);
    let l = k + 1 + wr.len() as int;
    assert(wd.subrange(l - 2, wd.len() as int) =~= pw);
    if opt.len() > 0 {
        crate::rule::lemma_prefixed_front(written(AStringWriter, opt), seq![SP]);
        assert(s[l] == wd[l - 2]);
    }
    crate::strings::lemma_astring_round_trip(req, s, k + 1);
    assert(s.subrange(l, l + pw.len() as int) =~= pw);
    lemma_preceded_astrings_round_trip(opt, s, l);
    lemma_kw_differs(s, 2, FLAGS_SP@, 0);
    lemma_kw_differs(s, 2, LIST_SP@, 4);
    lemma_kw_differs(s, 2, LSUB_SP@, 1);
    lemma_kw_differs(s, 2, crate::search_return::SEARCH@, 0);
    lemma_kw_differs(s, 2, SORT@, 0);
    lemma_kw_differs(s, 2, crate::search_return::ESEARCH@, 0);
    lemma_kw_differs(s, 2, STATUS_W@, 0);
    lemma_mbx_route_number(s, 2);
    lemma_kw_differs(s, 2, crate::command::ACL_SP@, 0);
    lemma_other_route_listrights(s, 2);
    lemma_data_route(d);
}

#[verifier::rlimit(100)]
proof fn lemma_lsub_round_trip(items: Seq<Seq<u8>>, dl: Option<u8>, m: MailboxV)
    requires
        writable_mailbox_list(items, dl, m),
    ensures
        spec_response(spec_write_response(ResponseV::Data(DataV::Lsub { items, delimiter: dl, mailbox: m })), 0) == Some((
            ResponseV::Data(DataV::Lsub { items, delimiter: dl, mailbox: m }),
            spec_write_response(ResponseV::Data(DataV::Lsub { items, delimiter: dl, mailbox: m })).len() as int,
        )),
{
    let d = DataV::Lsub { items, delimiter: dl, mailbox: m };
    let s = spec_write_response(ResponseV::Data(d));
    let wd = spec_write_data(d);
    let wl = spec_write_mailbox_list(items, dl, m);
    lemma_data_line(d);
    assert(wd[0] == LSUB_SP@[0] && wd[1] == LSUB_SP@[1]);
    assert(s.subrange(2, 7) =~= LSUB_SP@);
    crate::chars::lemma_keyword_at(s, 2, LSUB_SP@);
    assert(s.subrange(7, 7 + wl.len() as int) =~= wl);
    lemma_mailbox_list_round_trip(items, dl, m, s, 7);
    lemma_kw_differs(s, 2, FLAGS_SP@, 0);
    lemma_kw_differs(s, 2, LIST_SP@, 1);
    lemma_mbx_route_lsub(s, 2, items, dl, m, s.len() - 2);
    lemma_data_route(d);
}

#[verifier::rlimit(100)]
#[verifier::spinoff_prover]
proof fn lemma_list_data_at(items: Seq<Seq<u8>>, dl: Option<u8>, m: MailboxV, ext: Seq<ListExtendedItemV>, s: Seq<u8>, i: int)
    requires
        writable_mailbox_list(items, dl, m),
        crate::mailbox::writable_extended_items(ext),
        0 <= i,
        i + spec_write_data(DataV::List { items, delimiter: dl, mailbox: m, extended: ext }).len() < s.len(),
        s.subrange(i, i + spec_write_data(DataV::List { items, delimiter: dl, mailbox: m, extended: ext }).len())
            == spec_write_data(DataV::List { items, delimiter: dl, mailbox: m, extended: ext }),
        s[i + spec_write_data(DataV::List { items, delimiter: dl, mailbox: m, extended: ext }).len()] == CR,
    ensures
        spec_list_data(s, i) == Some((DataV::List { items, delimiter: dl, mailbox: m, extended: ext },
            i + spec_write_data(DataV::List { items, delimiter: dl, mailbox: m, extended: ext }).len())),
{
    let d = DataV::List { items, delimiter: dl, mailbox: m, extended: ext };
    let wd = spec_write_data(d);
    let wl = spec_write_mailbox_list(items, dl, m);
    let we = crate::mailbox::spec_write_mbox_list_extended(ext);
    let j = i + 5 + wl.len() as int;
    if ext.len() > 0 {
        assert(wd =~= LIST_SP@ + wl + seq![SP] + we);
        crate::chars::lemma_part(s, i, wd, 6 + wl.len() as int, we.len() as int);
        assert(wd.subrange(6 + wl.len() as int, wd.len() as int) =~= we);
        crate::mailbox::lemma_mbox_list_extended_round_trip(ext, s, j + 1);
        assert(s[j] == wd[5 + wl.len() as int]);
    } else {
        assert(wd =~= LIST_SP@ + wl);
        assert(ext =~= seq![]);
    }
    crate::chars::lemma_part(s, i, wd, 0, 5);
    assert(wd.subrange(0, 5) =~= LIST_SP@);
    crate::chars::lemma_keyword_at(s, i, LIST_SP@);
    crate::chars::lemma_part(s, i, wd, 5, wl.len() as int);
    assert(wd.subrange(5, 5 + wl.len() as int) =~= wl);
    lemma_mailbox_list_round_trip(items, dl, m, s, i + 5);
}

#[verifier::rlimit(100)]
#[verifier::spinoff_prover]
proof fn lemma_list_data_round_trip(items: Seq<Seq<u8>>, dl: Option<u8>, m: MailboxV, ext: Seq<ListExtendedItemV>)
    requires
        writable_mailbox_list(items, dl, m),
        crate::mailbox::writable_extended_items(ext),
    ensures
        spec_response(spec_write_response(ResponseV::Data(DataV::List { items, delimiter: dl, mailbox: m, extended: ext })), 0) == Some((
            ResponseV::Data(DataV::List { items, delimiter: dl, mailbox: m, extended: ext }),
            spec_write_response(ResponseV::Data(DataV::List { items, delimiter: dl, mailbox: m, extended: ext })).len() as int,
        )),
{
    let d = DataV::List { items, delimiter: dl, mailbox: m, extended: ext };
    let s = spec_write_response(ResponseV::Data(d));
    let wd = spec_write_data(d);
    lemma_data_line(d);
    assert(wd[0] == LIST_SP@[0]);
    assert(s.subrange(2, 2 + wd.len() as int) =~= wd);
    lemma_list_data_at(items, dl, m, ext, s, 2);
    lemma_kw_differs(s, 2, FLAGS_SP@, 0);
    lemma_mbx_route_list(s, 2);
    lemma_data_route(d);
}

#[verifier::rlimit(100)]
proof fn lemma_flags_data_round_trip(fs: Seq<FlagV>)
    requires
        crate::fetch::writable_flags(fs),
    ensures
        spec_response(spec_write_response(ResponseV::Data(DataV::Flags(fs))), 0) == Some((
            ResponseV::Data(DataV::Flags(fs)),
            spec_write_response(ResponseV::Data(DataV::Flags(fs))).len() as int,
        )),
{
    let d = DataV::Flags(fs);
    let s = spec_write_response(ResponseV::Data(d));
    let wd = spec_write_data(d);
    let wf = spec_write_flag_list(fs);
    lemma_data_line(d);
    assert(wd[0] == FLAGS_SP@[0]);
    assert(s.subrange(2, 8) =~= FLAGS_SP@);
    crate::chars::lemma_keyword_at(s, 2, FLAGS_SP@);
    assert(s.subrange(8, 8 + wf.len() as int) =~= wf);
    crate::fetch::lemma_flag_list_round_trip(fs, s, 8);
    lemma_mbx_route_flags(s, 2, fs, 8 + wf.len() as int);
    lemma_data_route(d);
}

#[verifier::rlimit(100)]
proof fn lemma_genurlauth_data_round_trip(v: Seq<StrV>)
    requires
        v.len() > 0,
        writable_strs(v),
    ensures
        spec_response(spec_write_response(ResponseV::Data(DataV::GenUrlAuth { urls: v })), 0) == Some((
            ResponseV::Data(DataV::GenUrlAuth { urls: v }),
            spec_write_response(ResponseV::Data(DataV::GenUrlAuth { urls: v })).len() as int,
        )),
{
    let d = DataV::GenUrlAuth { urls: v };
    let s = spec_write_response(ResponseV::Data(d));
    let wd = spec_write_data(d);
    let pw = prefixed(written(AStringWriter, v), seq![SP]);
    lemma_data_line(d);
    assert(wd[0] == crate::urlauth::GENURLAUTH@[0]);
    assert(s.subrange(2, 12) =~= crate::urlauth::GENURLAUTH@);
    crate::chars::lemma_keyword_at(s, 2, crate::urlauth::GENURLAUTH@);
    assert(s.subrange(12, 12 + pw.len() as int) =~= pw);
    lemma_preceded_astrings_round_trip(v, s, 12);
    lemma_no_mailbox_data(s, 2);
    lemma_kw_differs(s, 2, crate::command::ACL_SP@, 0);
    lemma_kw_differs(s, 2, crate::command::LISTRIGHTS_SP@, 0);
    lemma_kw_differs(s, 2, crate::command::MYRIGHTS_SP@, 0);
    lemma_other_route_genurlauth(s, 2, v, 12 + pw.len() as int);
    lemma_data_route(d);
}

/// The other data rules read a `URLFETCH` where it stands and no earlier
/// one.
proof fn lemma_other_route_urlfetch(s: Seq<u8>, i: int, v: Seq<crate::urlauth::UrlFetchDataV>, j: int)
    requires
        spec_acl_data(s, i) is None,
        spec_listrights_data(s, i) is None,
        spec_myrights_data(s, i) is None,
        crate::urlauth::spec_genurlauth_data(s, i) is None,
        crate::urlauth::spec_urlfetch_data(s, i) == Some((v, j)),
    ensures
        spec_other_data(s, i) == Some((DataV::UrlFetch { items: v }, j)),
{
    reveal(spec_other_data);
}

/// A `URLFETCH` data response reads back.
#[verifier::rlimit(100)]
#[verifier::spinoff_prover]
proof fn lemma_urlfetch_data_response_round_trip(v: Seq<crate::urlauth::UrlFetchDataV>)
    requires
        v.len() > 0,
        forall|k: int| 0 <= k < v.len() ==> crate::urlauth::writable_url_fetch_data(#[trigger] v[k]),
    ensures
        spec_response(spec_write_response(ResponseV::Data(DataV::UrlFetch { items: v })), 0) == Some((
            ResponseV::Data(DataV::UrlFetch { items: v }),
            spec_write_response(ResponseV::Data(DataV::UrlFetch { items: v })).len() as int,
        )),
{
    let d = DataV::UrlFetch { items: v };
    let s = spec_write_response(ResponseV::Data(d));
    let wd = spec_write_data(d);
    lemma_data_line(d);
    assert(wd[0] == crate::urlauth::URLFETCH@[0] && wd[1] == crate::urlauth::URLFETCH@[1]);
    assert(s.subrange(2, 2 + wd.len() as int) =~= wd);
    crate::urlauth::lemma_urlfetch_data_round_trip(v, s, 2);
    lemma_no_mailbox_data(s, 2);
    lemma_kw_differs(s, 2, crate::command::ACL_SP@, 0);
    lemma_kw_differs(s, 2, crate::command::LISTRIGHTS_SP@, 0);
    lemma_kw_differs(s, 2, crate::command::MYRIGHTS_SP@, 0);
    lemma_kw_differs(s, 2, crate::urlauth::GENURLAUTH@, 0);
    lemma_other_route_urlfetch(s, 2, v, 2 + wd.len() as int);
    lemma_data_route(d);
}

/// `mailbox-data` reads an `ESEARCH` where it stands and no earlier one.
proof fn lemma_mbx_route_esearch(s: Seq<u8>, i: int, e: EsearchResponseV, j: int)
    requires
        !spec_keyword(s, i, FLAGS_SP@),
        !spec_keyword(s, i, LIST_SP@),
        !spec_keyword(s, i, LSUB_SP@),
        !spec_keyword(s, i, crate::search_return::SEARCH@),
        !spec_keyword(s, i, SORT@),
        spec_esearch_response(s, i) == Some((e, j)),
    ensures
        spec_mailbox_data(s, i) == Some((DataV::ESearch(e), j)),
{
    reveal(spec_mailbox_data);
}

/// An `ESEARCH` data response reads back.
#[verifier::rlimit(100)]
#[verifier::spinoff_prover]
proof fn lemma_esearch_data_round_trip(e: EsearchResponseV)
    requires
        crate::search_return::writable_esearch_response(e),
    ensures
        spec_response(spec_write_response(ResponseV::Data(DataV::ESearch(e))), 0) == Some((
            ResponseV::Data(DataV::ESearch(e)),
            spec_write_response(ResponseV::Data(DataV::ESearch(e))).len() as int,
        )),
{
    let d = DataV::ESearch(e);
    let s = spec_write_response(ResponseV::Data(d));
    let wd = spec_write_data(d);
    lemma_data_line(d);
    assert(wd[0] == crate::search_return::ESEARCH@[0]);
    assert(s.subrange(2, 2 + wd.len() as int) =~= wd);
    crate::search_return::lemma_esearch_response_round_trip(e, s, 2);
    lemma_kw_differs(s, 2, FLAGS_SP@, 0);
    lemma_kw_differs(s, 2, LIST_SP@, 0);
    lemma_kw_differs(s, 2, LSUB_SP@, 0);
    lemma_kw_differs(s, 2, crate::search_return::SEARCH@, 0);
    lemma_kw_differs(s, 2, SORT@, 0);
    lemma_mbx_route_esearch(s, 2, e, 2 + wd.len() as int);
    lemma_data_route(d);
}

/// The data responses whose reading back is proved: all of them, each
/// with values that can be written and read back.
pub open spec fn round_trip_data(d: DataV) -> bool {
    match d {
        DataV::Capability(c) => c.len() > 0 && crate::strings::writable_atoms(c),
        DataV::List { items, delimiter, mailbox, extended } => writable_mailbox_list(items, delimiter, mailbox)
            && crate::mailbox::writable_extended_items(extended),
        DataV::Lsub { items, delimiter, mailbox } => writable_mailbox_list(items, delimiter, mailbox),
        DataV::Flags(fs) => crate::fetch::writable_flags(fs),
        DataV::Search(n) => forall|k: int| 0 <= k < n.len() ==> #[trigger] n[k] != 0,
        DataV::Sort(n) => forall|k: int| 0 <= k < n.len() ==> #[trigger] n[k] != 0,
        DataV::Status { mailbox, items } => crate::mailbox::writable_mailbox(mailbox) && writable_status_vals(items),
        DataV::Exists(_) => true,
        DataV::Recent(_) => true,
        DataV::Expunge(n) => n != 0,
        DataV::Acl { mailbox, entries } => crate::mailbox::writable_mailbox(mailbox) && writable_acl_entries(entries),
        DataV::ListRights { mailbox, identifier, required, optional } => crate::mailbox::writable_mailbox(mailbox)
            && crate::strings::writable_str(identifier) && crate::strings::writable_str(required)
            && writable_strs(optional),
        DataV::MyRights { mailbox, rights } => crate::mailbox::writable_mailbox(mailbox)
            && crate::strings::writable_str(rights),
        DataV::GenUrlAuth { urls } => urls.len() > 0 && writable_strs(urls),
        DataV::Fetch { seq, items } => seq != 0 && crate::fetch::writable_msg_att(items),
        DataV::ESearch(e) => crate::search_return::writable_esearch_response(e),
        DataV::UrlFetch { items } => items.len() > 0 && forall|k: int| 0 <= k < items.len()
            ==> crate::urlauth::writable_url_fetch_data(#[trigger] items[k]),
    }
}

/// The responses whose reading back is proved: every status response
/// that can be written, and the data of [`round_trip_data`].
pub open spec fn round_trip_response(r: ResponseV) -> bool {
    match r {
        ResponseV::Status(st) => writable_status(st),
        ResponseV::Data(d) => round_trip_data(d),
    }
}

/// A response of [`round_trip_response`] reads back as itself from what
/// it is written as, the whole line consumed.
pub proof fn lemma_response_round_trip(r: ResponseV)
    requires
        round_trip_response(r),
    ensures
        spec_response(spec_write_response(r), 0) == Some((r, spec_write_response(r).len() as int)),
{
    match r {
        ResponseV::Status(st) => lemma_status_response_round_trip(st),
        ResponseV::Data(d) => match d {
            DataV::Capability(c) => lemma_capability_round_trip(c),
            DataV::List { items, delimiter, mailbox, extended } =>
                lemma_list_data_round_trip(items, delimiter, mailbox, extended),
            DataV::Lsub { items, delimiter, mailbox } => lemma_lsub_round_trip(items, delimiter, mailbox),
            DataV::Flags(fs) => lemma_flags_data_round_trip(fs),
            DataV::Search(n) => lemma_search_round_trip(n),
            DataV::Sort(n) => lemma_sort_round_trip(n),
            DataV::Status { mailbox, items } => lemma_status_data_round_trip(mailbox, items),
            DataV::Exists(n) => lemma_exists_round_trip(n),
            DataV::Recent(n) => lemma_recent_round_trip(n),
            DataV::Expunge(n) => lemma_expunge_round_trip(n),
            DataV::Acl { mailbox, entries } => lemma_acl_data_round_trip(mailbox, entries),
            DataV::ListRights { mailbox, identifier, required, optional } =>
                lemma_list_rights_data_round_trip(mailbox, identifier, required, optional),
            DataV::MyRights { mailbox, rights } => lemma_my_rights_data_round_trip(mailbox, rights),
            DataV::GenUrlAuth { urls } => lemma_genurlauth_data_round_trip(urls),
            DataV::Fetch { seq, items } => lemma_fetch_data_round_trip(seq, items),
            DataV::UrlFetch { items } => lemma_urlfetch_data_response_round_trip(items),
            DataV::ESearch(e) => lemma_esearch_data_round_trip(e),
        },
    }
}

} // verus!

verus! {

// ---------------------------------------------------------------------
// The words each form is written with.

/// How each form of a response code is written, its words spelled out byte by byte.
pub proof fn lemma_code_written()
    ensures
        spec_write_code(CodeV::Alert) == seq![65u8, 76, 69, 82, 84],
        spec_write_code(CodeV::Parse) == seq![80u8, 65, 82, 83, 69],
        spec_write_code(CodeV::ReadOnly) == seq![82u8, 69, 65, 68, 45, 79, 78, 76, 89],
        spec_write_code(CodeV::ReadWrite) == seq![82u8, 69, 65, 68, 45, 87, 82, 73, 84, 69],
        spec_write_code(CodeV::TryCreate) == seq![84u8, 82, 89, 67, 82, 69, 65, 84, 69],
        forall|v: CodeV| #![trigger spec_write_code(v)] v matches CodeV::UidNext(n) ==> spec_write_code(v) == seq![85u8, 73, 68, 78, 69, 88, 84, 32] + decimal(n as nat),
        forall|v: CodeV| #![trigger spec_write_code(v)] v matches CodeV::UidValidity(n) ==> spec_write_code(v) == seq![85u8, 73, 68, 86, 65, 76, 73, 68, 73, 84, 89, 32] + decimal(n as nat),
        forall|v: CodeV| #![trigger spec_write_code(v)] v matches CodeV::Unseen(n) ==> spec_write_code(v) == seq![85u8, 78, 83, 69, 69, 78, 32] + decimal(n as nat),
        spec_write_code(CodeV::NotificationOverflow) == seq![78u8, 79, 84, 73, 70, 73, 67, 65, 84, 73, 79, 78, 79, 86, 69, 82, 70, 76, 79, 87],
        forall|v: CodeV| #![trigger spec_write_code(v)] v matches CodeV::BadEvent(e) ==> spec_write_code(v) == seq![66u8, 65, 68, 69, 86, 69, 78, 84, 32, 40] + join(written(AtomWriter, e), seq![SP]) + seq![RPAREN],
        forall|v: CodeV| #![trigger spec_write_code(v)] v matches CodeV::MailboxId(o) ==> spec_write_code(v) == seq![77u8, 65, 73, 76, 66, 79, 88, 73, 68, 32] + seq![LPAREN] + o + seq![RPAREN],
        spec_write_code(CodeV::NotSaved) == seq![78u8, 79, 84, 83, 65, 86, 69, 68],
{
    assert(ALERT@ =~= seq![65u8, 76, 69, 82, 84]);
    assert(BADEVENT_SP_LPAREN@ =~= seq![66u8, 65, 68, 69, 86, 69, 78, 84, 32, 40]);
    assert(MAILBOXID_SP@ =~= seq![77u8, 65, 73, 76, 66, 79, 88, 73, 68, 32]);
    assert(NOTIFICATIONOVERFLOW@ =~= seq![78u8, 79, 84, 73, 70, 73, 67, 65, 84, 73, 79, 78, 79, 86, 69, 82, 70, 76, 79, 87]);
    assert(NOTSAVED@ =~= seq![78u8, 79, 84, 83, 65, 86, 69, 68]);
    assert(PARSE@ =~= seq![80u8, 65, 82, 83, 69]);
    assert(READ_ONLY@ =~= seq![82u8, 69, 65, 68, 45, 79, 78, 76, 89]);
    assert(READ_WRITE@ =~= seq![82u8, 69, 65, 68, 45, 87, 82, 73, 84, 69]);
    assert(TRYCREATE@ =~= seq![84u8, 82, 89, 67, 82, 69, 65, 84, 69]);
    assert(UIDNEXT_SP@ =~= seq![85u8, 73, 68, 78, 69, 88, 84, 32]);
    assert(UIDVALIDITY_SP@ =~= seq![85u8, 73, 68, 86, 65, 76, 73, 68, 73, 84, 89, 32]);
    assert(UNSEEN_SP@ =~= seq![85u8, 78, 83, 69, 69, 78, 32]);
}

/// How each form of the kind of a status response is written, its words spelled out byte by byte.
pub proof fn lemma_kind_name_spelled()
    ensures
        spec_kind_name(StatusKind::Okay) == seq![79u8, 75],
        spec_kind_name(StatusKind::No) == seq![78u8, 79],
        spec_kind_name(StatusKind::Bad) == seq![66u8, 65, 68],
{
    assert(BAD@ =~= seq![66u8, 65, 68]);
    assert(NO@ =~= seq![78u8, 79]);
    assert(OK@ =~= seq![79u8, 75]);
}

/// How each form of a data response is written, its words spelled out byte by byte.
pub proof fn lemma_data_written()
    ensures
        forall|v: DataV| #![trigger spec_write_data(v)] v matches DataV::Capability(c) ==> spec_write_data(v) == seq![67u8, 65, 80, 65, 66, 73, 76, 73, 84, 89] + prefixed(written(AtomWriter, c), seq![SP]),
        forall|v: DataV| #![trigger spec_write_data(v)] v matches DataV::List { items, delimiter, mailbox, extended } ==> spec_write_data(v) == seq![76u8, 73, 83, 84, 32] + spec_write_mailbox_list(items, delimiter, mailbox) + if extended.len() > 0 { seq![SP] + spec_write_mbox_list_extended(extended) } else { seq![] },
        forall|v: DataV| #![trigger spec_write_data(v)] v matches DataV::Lsub { items, delimiter, mailbox } ==> spec_write_data(v) == seq![76u8, 83, 85, 66, 32] + spec_write_mailbox_list(items, delimiter, mailbox),
        forall|v: DataV| #![trigger spec_write_data(v)] v matches DataV::Flags(f) ==> spec_write_data(v) == seq![70u8, 76, 65, 71, 83, 32] + spec_write_flag_list(f),
        forall|v: DataV| #![trigger spec_write_data(v)] v matches DataV::Search(n) ==> spec_write_data(v) == seq![83u8, 69, 65, 82, 67, 72] + prefixed(written(crate::fetch::NzNumberWriter, n), seq![SP]),
        forall|v: DataV| #![trigger spec_write_data(v)] v matches DataV::Sort(n) ==> spec_write_data(v) == seq![83u8, 79, 82, 84] + prefixed(written(crate::fetch::NzNumberWriter, n), seq![SP]),
        forall|v: DataV| #![trigger spec_write_data(v)] v matches DataV::Status { mailbox, items } ==> spec_write_data(v) == seq![83u8, 84, 65, 84, 85, 83] + seq![SP] + spec_write_mailbox(mailbox) + seq![SP, LPAREN] + join(written(StatusAttValWriter, items), seq![SP]) + seq![RPAREN],
        forall|v: DataV| #![trigger spec_write_data(v)] v matches DataV::Exists(n) ==> spec_write_data(v) == decimal(n as nat) + seq![32u8, 69, 88, 73, 83, 84, 83],
        forall|v: DataV| #![trigger spec_write_data(v)] v matches DataV::Recent(n) ==> spec_write_data(v) == decimal(n as nat) + seq![32u8, 82, 69, 67, 69, 78, 84],
        forall|v: DataV| #![trigger spec_write_data(v)] v matches DataV::Expunge(n) ==> spec_write_data(v) == decimal(n as nat) + seq![SP] + seq![69u8, 88, 80, 85, 78, 71, 69],
        forall|v: DataV| #![trigger spec_write_data(v)] v matches DataV::Fetch { seq, items } ==> spec_write_data(v) == decimal(seq as nat) + seq![SP] + seq![70u8, 69, 84, 67, 72, 32] + seq![LPAREN] + join(written(MsgAttItemWriter, items), seq![SP]) + seq![RPAREN],
        forall|v: DataV| #![trigger spec_write_data(v)] v matches DataV::Acl { mailbox, entries } ==> spec_write_data(v) == seq![65u8, 67, 76, 32] + spec_write_mailbox(mailbox) + prefixed(written(AclEntryWriter, entries), seq![SP]),
        forall|v: DataV| #![trigger spec_write_data(v)] v matches DataV::ListRights { mailbox, identifier, required, optional } ==> spec_write_data(v) == seq![76u8, 73, 83, 84, 82, 73, 71, 72, 84, 83, 32] + spec_write_mailbox(mailbox) + seq![SP] + crate::strings::spec_write_str(identifier) + seq![SP] + crate::strings::spec_write_str(required) + prefixed(written(AStringWriter, optional), seq![SP]),
        forall|v: DataV| #![trigger spec_write_data(v)] v matches DataV::MyRights { mailbox, rights } ==> spec_write_data(v) == seq![77u8, 89, 82, 73, 71, 72, 84, 83, 32] + spec_write_mailbox(mailbox) + seq![SP] + crate::strings::spec_write_str(rights),
{
    assert(CAPABILITY@ =~= seq![67u8, 65, 80, 65, 66, 73, 76, 73, 84, 89]);
    assert(EXPUNGE@ =~= seq![69u8, 88, 80, 85, 78, 71, 69]);
    assert(FETCH_SP@ =~= seq![70u8, 69, 84, 67, 72, 32]);
    assert(FLAGS_SP@ =~= seq![70u8, 76, 65, 71, 83, 32]);
    assert(LIST_SP@ =~= seq![76u8, 73, 83, 84, 32]);
    assert(LSUB_SP@ =~= seq![76u8, 83, 85, 66, 32]);
    assert(SORT@ =~= seq![83u8, 79, 82, 84]);
    assert(SP_EXISTS@ =~= seq![32u8, 69, 88, 73, 83, 84, 83]);
    assert(SP_RECENT@ =~= seq![32u8, 82, 69, 67, 69, 78, 84]);
    assert(STATUS_W@ =~= seq![83u8, 84, 65, 84, 85, 83]);
    assert(crate::command::ACL_SP@ =~= seq![65u8, 67, 76, 32]);
    assert(crate::command::LISTRIGHTS_SP@ =~= seq![76u8, 73, 83, 84, 82, 73, 71, 72, 84, 83, 32]);
    assert(crate::command::MYRIGHTS_SP@ =~= seq![77u8, 89, 82, 73, 71, 72, 84, 83, 32]);
    assert(crate::search_return::SEARCH@ =~= seq![83u8, 69, 65, 82, 67, 72]);
}

} // verus!
