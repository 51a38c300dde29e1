//! STATUS (RFC 3501 Section 6.3.10, RFC 9051, RFC 8474 Section 4): the
//! items a client asks a mailbox's status for, and the values it is told.

use vstd::prelude::*;

use crate::chars::{byte, keyword, put, spec_byte, spec_keyword, LPAREN, RPAREN, SP};
use crate::num::{decimal, read_number, spec_number, spec_nz_number, write_number, NumberRule, NzNumber, NzNumberRule};
use crate::objectid::{read_objectid, spec_objectid, ObjectId};
use crate::rule::{read_view, Rule, Writer};
use crate::search::{DELETED, RECENT, UNSEEN};

verus! {

broadcast use NzNumber::lemma_view_is_value;

/// `MESSAGES`
pub const MESSAGES: [u8; 8] = [77, 69, 83, 83, 65, 71, 69, 83];

/// `UIDNEXT`
pub const UIDNEXT: [u8; 7] = [85, 73, 68, 78, 69, 88, 84];

/// `UIDVALIDITY`
pub const UIDVALIDITY: [u8; 11] = [85, 73, 68, 86, 65, 76, 73, 68, 73, 84, 89];

/// `DELETED-STORAGE`
pub const DELETED_STORAGE: [u8; 15] = [68, 69, 76, 69, 84, 69, 68, 45, 83, 84, 79, 82, 65, 71, 69];

/// `SIZE`
pub const SIZE: [u8; 4] = [83, 73, 90, 69];

/// `MAILBOXID`
pub const MAILBOXID: [u8; 9] = [77, 65, 73, 76, 66, 79, 88, 73, 68];

/// An item a `STATUS` command asks for: `status-att`.
#[derive(Clone, Copy, Debug, PartialEq, Eq, Hash)]
pub enum StatusDataItemName {
    /// The number of messages.
    Messages,
    /// The number of messages with `\\Recent` set.
    Recent,
    /// The UID the next message will get.
    UidNext,
    /// The mailbox's UID validity value.
    UidValidity,
    /// The number of messages without `\\Seen`.
    Unseen,
    /// The storage that deleting the messages with `\\Deleted` would free (RFC 9208).
    DeletedStorage,
    /// The number of messages with `\\Deleted` set (RFC 9051).
    Deleted,
    /// The mailbox's size in octets (RFC 8438).
    Size,
    /// The mailbox's object identifier (RFC 8474).
    MailboxId,
}

impl DeepView for StatusDataItemName {
    type V = StatusDataItemName;

    open spec fn deep_view(&self) -> StatusDataItemName {
        *self
    }
}

/// The word that names each [`StatusDataItemName`].
pub open spec fn spec_status_att_name(v: StatusDataItemName) -> Seq<u8> {
    match v {
        StatusDataItemName::Messages => MESSAGES@,
        StatusDataItemName::Recent => RECENT@,
        StatusDataItemName::UidNext => UIDNEXT@,
        StatusDataItemName::UidValidity => UIDVALIDITY@,
        StatusDataItemName::Unseen => UNSEEN@,
        StatusDataItemName::DeletedStorage => DELETED_STORAGE@,
        StatusDataItemName::Deleted => DELETED@,
        StatusDataItemName::Size => SIZE@,
        StatusDataItemName::MailboxId => MAILBOXID@,
    }
}

/// Reads a [`StatusDataItemName`]: the words in the order they are tried.
pub open spec fn spec_status_att(s: Seq<u8>, i: int) -> Option<(StatusDataItemName, int)> {
    let r = crate::search::flag(s, i, MESSAGES@, StatusDataItemName::Messages);
    let r = crate::search::alt(r, crate::search::flag(s, i, RECENT@, StatusDataItemName::Recent));
    let r = crate::search::alt(r, crate::search::flag(s, i, UIDNEXT@, StatusDataItemName::UidNext));
    let r = crate::search::alt(r, crate::search::flag(s, i, UIDVALIDITY@, StatusDataItemName::UidValidity));
    let r = crate::search::alt(r, crate::search::flag(s, i, UNSEEN@, StatusDataItemName::Unseen));
    let r = crate::search::alt(r, crate::search::flag(s, i, DELETED_STORAGE@, StatusDataItemName::DeletedStorage));
    let r = crate::search::alt(r, crate::search::flag(s, i, DELETED@, StatusDataItemName::Deleted));
    let r = crate::search::alt(r, crate::search::flag(s, i, SIZE@, StatusDataItemName::Size));
    let r = crate::search::alt(r, crate::search::flag(s, i, MAILBOXID@, StatusDataItemName::MailboxId));
    r
}

/// The rule that reads a [`StatusDataItemName`].
pub struct StatusAttRule;

impl Rule for StatusAttRule {
    type Out = StatusDataItemName;

    open spec fn spec_read(&self, s: Seq<u8>, i: int) -> Option<(StatusDataItemName, int)> {
        spec_status_att(s, i)
    }

    fn read(&self, s: &[u8], i: usize) -> (r: Option<(StatusDataItemName, usize)>) {
        let w_messages = MESSAGES;
        if keyword(s, i, w_messages.as_slice()) {
            return Some((StatusDataItemName::Messages, i + w_messages.len()));
        }
        let w_recent = RECENT;
        if keyword(s, i, w_recent.as_slice()) {
            return Some((StatusDataItemName::Recent, i + w_recent.len()));
        }
        let w_uidnext = UIDNEXT;
        if keyword(s, i, w_uidnext.as_slice()) {
            return Some((StatusDataItemName::UidNext, i + w_uidnext.len()));
        }
        let w_uidvalidity = UIDVALIDITY;
        if keyword(s, i, w_uidvalidity.as_slice()) {
            return Some((StatusDataItemName::UidValidity, i + w_uidvalidity.len()));
        }
        let w_unseen = UNSEEN;
        if keyword(s, i, w_unseen.as_slice()) {
            return Some((StatusDataItemName::Unseen, i + w_unseen.len()));
        }
        let w_deleted_storage = DELETED_STORAGE;
        if keyword(s, i, w_deleted_storage.as_slice()) {
            return Some((StatusDataItemName::DeletedStorage, i + w_deleted_storage.len()));
        }
        let w_deleted = DELETED;
        if keyword(s, i, w_deleted.as_slice()) {
            return Some((StatusDataItemName::Deleted, i + w_deleted.len()));
        }
        let w_size = SIZE;
        if keyword(s, i, w_size.as_slice()) {
            return Some((StatusDataItemName::Size, i + w_size.len()));
        }
        let w_mailboxid = MAILBOXID;
        if keyword(s, i, w_mailboxid.as_slice()) {
            return Some((StatusDataItemName::MailboxId, i + w_mailboxid.len()));
        }
        None
    }
}

impl StatusDataItemName {
    /// The word that names it.
    pub fn as_bytes(&self) -> (r: &'static [u8])
        ensures
            r@ == spec_status_att_name(*self),
    {
        match self {
            StatusDataItemName::Messages => MESSAGES.as_slice(),
            StatusDataItemName::Recent => RECENT.as_slice(),
            StatusDataItemName::UidNext => UIDNEXT.as_slice(),
            StatusDataItemName::UidValidity => UIDVALIDITY.as_slice(),
            StatusDataItemName::Unseen => UNSEEN.as_slice(),
            StatusDataItemName::DeletedStorage => DELETED_STORAGE.as_slice(),
            StatusDataItemName::Deleted => DELETED.as_slice(),
            StatusDataItemName::Size => SIZE.as_slice(),
            StatusDataItemName::MailboxId => MAILBOXID.as_slice(),
        }
    }
}

/// Writes a [`StatusDataItemName`].
pub fn write_status_att(out: &mut Vec<u8>, v: &StatusDataItemName)
    ensures
        final(out)@ == old(out)@ + spec_status_att_name(*v),
{
    put(out, v.as_bytes());
}

/// `MESSAGES `
pub const MESSAGES_SP: [u8; 9] = [77, 69, 83, 83, 65, 71, 69, 83, 32];
/// `RECENT `
pub const RECENT_SP: [u8; 7] = [82, 69, 67, 69, 78, 84, 32];
/// `UIDNEXT `
pub const UIDNEXT_SP: [u8; 8] = [85, 73, 68, 78, 69, 88, 84, 32];
/// `UIDVALIDITY `
pub const UIDVALIDITY_SP: [u8; 12] = [85, 73, 68, 86, 65, 76, 73, 68, 73, 84, 89, 32];
/// `UNSEEN `
pub const UNSEEN_SP: [u8; 7] = [85, 78, 83, 69, 69, 78, 32];
/// `DELETED `
pub const DELETED_SP: [u8; 8] = [68, 69, 76, 69, 84, 69, 68, 32];
/// `MAILBOXID (`
pub const MAILBOXID_SP_LPAREN: [u8; 11] = [77, 65, 73, 76, 66, 79, 88, 73, 68, 32, 40];

/// A value a `STATUS` response carries: `status-att-val`.
#[derive(Debug, PartialEq, Eq, Hash)]
pub enum StatusDataItem {
    Messages(u32),
    Recent(u32),
    UidNext(NzNumber),
    UidValidity(NzNumber),
    Unseen(u32),
    Deleted(u32),
    /// `MAILBOXID "(" objectid ")"` (RFC 8474 Section 4).
    MailboxId(ObjectId),
}

/// The model of a [`StatusDataItem`].
pub enum StatusDataItemV {
    Messages(u32),
    Recent(u32),
    UidNext(u32),
    UidValidity(u32),
    Unseen(u32),
    Deleted(u32),
    MailboxId(Seq<u8>),
}

impl DeepView for StatusDataItem {
    type V = StatusDataItemV;

    open spec fn deep_view(&self) -> StatusDataItemV {
        match self {
            StatusDataItem::Messages(n) => StatusDataItemV::Messages(*n),
            StatusDataItem::Recent(n) => StatusDataItemV::Recent(*n),
            StatusDataItem::UidNext(n) => StatusDataItemV::UidNext(n.deep_view()),
            StatusDataItem::UidValidity(n) => StatusDataItemV::UidValidity(n.deep_view()),
            StatusDataItem::Unseen(n) => StatusDataItemV::Unseen(*n),
            StatusDataItem::Deleted(n) => StatusDataItemV::Deleted(*n),
            StatusDataItem::MailboxId(o) => StatusDataItemV::MailboxId(o.deep_view()),
        }
    }
}

/// `"MAILBOXID" SP "(" objectid ")"`
pub open spec fn spec_mailboxid_val(s: Seq<u8>, i: int) -> Option<(Seq<u8>, int)> {
    if spec_keyword(s, i, MAILBOXID_SP_LPAREN@) {
        match spec_objectid(s, i + 11) {
            Some((o, j)) => if spec_byte(s, j, RPAREN) {
                Some((o, j + 1))
            } else {
                None
            },
            None => None,
        }
    } else {
        None
    }
}

/// `status-att-val`: the values in the order they are tried.
pub open spec fn spec_status_att_val(s: Seq<u8>, i: int) -> Option<(StatusDataItemV, int)> {
    let r = crate::search::map_value(crate::search::after_keyword(s, i, MESSAGES_SP@, |j: int| spec_number(s, j)), |x: u32| StatusDataItemV::Messages(x));
    let r = crate::search::alt(r, crate::search::map_value(crate::search::after_keyword(s, i, RECENT_SP@, |j: int| spec_number(s, j)), |x: u32| StatusDataItemV::Recent(x)));
    let r = crate::search::alt(r, crate::search::map_value(crate::search::after_keyword(s, i, UIDNEXT_SP@, |j: int| spec_nz_number(s, j)), |x: u32| StatusDataItemV::UidNext(x)));
    let r = crate::search::alt(r, crate::search::map_value(crate::search::after_keyword(s, i, UIDVALIDITY_SP@, |j: int| spec_nz_number(s, j)), |x: u32| StatusDataItemV::UidValidity(x)));
    let r = crate::search::alt(r, crate::search::map_value(crate::search::after_keyword(s, i, UNSEEN_SP@, |j: int| spec_number(s, j)), |x: u32| StatusDataItemV::Unseen(x)));
    let r = crate::search::alt(r, crate::search::map_value(crate::search::after_keyword(s, i, DELETED_SP@, |j: int| spec_number(s, j)), |x: u32| StatusDataItemV::Deleted(x)));
    crate::search::alt(r, crate::search::map_value(spec_mailboxid_val(s, i), |x: Seq<u8>| StatusDataItemV::MailboxId(x)))
}

/// The rule `status-att-val`.
pub struct StatusAttValRule;

impl Rule for StatusAttValRule {
    type Out = StatusDataItem;

    open spec fn spec_read(&self, s: Seq<u8>, i: int) -> Option<(StatusDataItemV, int)> {
        spec_status_att_val(s, i)
    }

    fn read(&self, s: &[u8], i: usize) -> (r: Option<(StatusDataItem, usize)>) {
        let k = MESSAGES_SP;
        if keyword(s, i, k.as_slice()) {
            if let Some((x, j)) = read_number(s, i + k.len()) {
                return Some((StatusDataItem::Messages(x), j));
            }
        }
        let k = RECENT_SP;
        if keyword(s, i, k.as_slice()) {
            if let Some((x, j)) = read_number(s, i + k.len()) {
                return Some((StatusDataItem::Recent(x), j));
            }
        }
        let k = UIDNEXT_SP;
        if keyword(s, i, k.as_slice()) {
            if let Some((x, j)) = NzNumberRule.read(s, i + k.len()) {
                return Some((StatusDataItem::UidNext(x), j));
            }
        }
        let k = UIDVALIDITY_SP;
        if keyword(s, i, k.as_slice()) {
            if let Some((x, j)) = NzNumberRule.read(s, i + k.len()) {
                return Some((StatusDataItem::UidValidity(x), j));
            }
        }
        let k = UNSEEN_SP;
        if keyword(s, i, k.as_slice()) {
            if let Some((x, j)) = read_number(s, i + k.len()) {
                return Some((StatusDataItem::Unseen(x), j));
            }
        }
        let k = DELETED_SP;
        if keyword(s, i, k.as_slice()) {
            if let Some((x, j)) = read_number(s, i + k.len()) {
                return Some((StatusDataItem::Deleted(x), j));
            }
        }
        let k = MAILBOXID_SP_LPAREN;
        if keyword(s, i, k.as_slice()) {
            if let Some((x, j)) = read_objectid(s, i + k.len()) {
                if byte(s, j, RPAREN) {
                    return Some((StatusDataItem::MailboxId(x), j + 1));
                }
            }
        }
        None
    }
}

/// How a `status-att-val` is written.
pub open spec fn spec_write_status_att_val(v: StatusDataItemV) -> Seq<u8> {
    match v {
        StatusDataItemV::Messages(n) => MESSAGES_SP@ + decimal(n as nat),
        StatusDataItemV::Recent(n) => RECENT_SP@ + decimal(n as nat),
        StatusDataItemV::UidNext(n) => UIDNEXT_SP@ + decimal(n as nat),
        StatusDataItemV::UidValidity(n) => UIDVALIDITY_SP@ + decimal(n as nat),
        StatusDataItemV::Unseen(n) => UNSEEN_SP@ + decimal(n as nat),
        StatusDataItemV::Deleted(n) => DELETED_SP@ + decimal(n as nat),
        StatusDataItemV::MailboxId(o) => MAILBOXID_SP_LPAREN@ + o + seq![RPAREN],
    }
}

/// Writes a `status-att-val`.
pub fn write_status_att_val(out: &mut Vec<u8>, v: &StatusDataItem)
    ensures
        final(out)@ == old(out)@ + spec_write_status_att_val(v.deep_view()),
{
    let ghost start = old(out)@;
    match v {
        StatusDataItem::Messages(n) => {
            let k = MESSAGES_SP;
            put(out, k.as_slice());
            write_number(out, *n);
        },
        StatusDataItem::Recent(n) => {
            let k = RECENT_SP;
            put(out, k.as_slice());
            write_number(out, *n);
        },
        StatusDataItem::UidNext(n) => {
            let k = UIDNEXT_SP;
            put(out, k.as_slice());
            write_number(out, n.get());
        },
        StatusDataItem::UidValidity(n) => {
            let k = UIDVALIDITY_SP;
            put(out, k.as_slice());
            write_number(out, n.get());
        },
        StatusDataItem::Unseen(n) => {
            let k = UNSEEN_SP;
            put(out, k.as_slice());
            write_number(out, *n);
        },
        StatusDataItem::Deleted(n) => {
            let k = DELETED_SP;
            put(out, k.as_slice());
            write_number(out, *n);
        },
        StatusDataItem::MailboxId(o) => {
            let k = MAILBOXID_SP_LPAREN;
            put(out, k.as_slice());
            put(out, o.inner());
            out.push(RPAREN);
        },
    }
    assert(out@ =~= start + spec_write_status_att_val(v.deep_view()));
}

/// Writes `status-att` names.
pub struct StatusAttWriter;

impl Writer for StatusAttWriter {
    type In = StatusDataItemName;

    open spec fn spec_write(&self, v: StatusDataItemName) -> Seq<u8> {
        spec_status_att_name(v)
    }

    fn write(&self, out: &mut Vec<u8>, v: &StatusDataItemName) {
        write_status_att(out, v)
    }
}

/// Writes `status-att-val`s.
pub struct StatusAttValWriter;

impl Writer for StatusAttValWriter {
    type In = StatusDataItem;

    open spec fn spec_write(&self, v: StatusDataItemV) -> Seq<u8> {
        spec_write_status_att_val(v)
    }

    fn write(&self, out: &mut Vec<u8>, v: &StatusDataItem) {
        write_status_att_val(out, v)
    }
}


/// Each name, written at `j` and followed by a space or `)`, reads back.
pub proof fn lemma_status_att_round_trip(v: StatusDataItemName, s: Seq<u8>, j: int)
    requires
        0 <= j,
        j + spec_status_att_name(v).len() < s.len(),
        s.subrange(j, j + spec_status_att_name(v).len()) == spec_status_att_name(v),
        s[j + spec_status_att_name(v).len()] == 32u8 || s[j + spec_status_att_name(v).len()] == 41u8,
    ensures
        spec_status_att(s, j) == Some((v, j + spec_status_att_name(v).len())),
{
    let w = spec_status_att_name(v);
    crate::chars::lemma_keyword_at(s, j, w);
    match v {
        StatusDataItemName::Messages => {
        },
        StatusDataItemName::Recent => {
            assert(s[j + 0] == s.subrange(j, j + w.len())[0]);
            crate::chars::lemma_not_keyword(s, j, MESSAGES@, 0);
        },
        StatusDataItemName::UidNext => {
            assert(s[j + 0] == s.subrange(j, j + w.len())[0]);
            crate::chars::lemma_not_keyword(s, j, MESSAGES@, 0);
            assert(s[j + 0] == s.subrange(j, j + w.len())[0]);
            crate::chars::lemma_not_keyword(s, j, RECENT@, 0);
        },
        StatusDataItemName::UidValidity => {
            assert(s[j + 0] == s.subrange(j, j + w.len())[0]);
            crate::chars::lemma_not_keyword(s, j, MESSAGES@, 0);
            assert(s[j + 0] == s.subrange(j, j + w.len())[0]);
            crate::chars::lemma_not_keyword(s, j, RECENT@, 0);
            assert(s[j + 3] == s.subrange(j, j + w.len())[3]);
            crate::chars::lemma_not_keyword(s, j, UIDNEXT@, 3);
        },
        StatusDataItemName::Unseen => {
            assert(s[j + 0] == s.subrange(j, j + w.len())[0]);
            crate::chars::lemma_not_keyword(s, j, MESSAGES@, 0);
            assert(s[j + 0] == s.subrange(j, j + w.len())[0]);
            crate::chars::lemma_not_keyword(s, j, RECENT@, 0);
            assert(s[j + 1] == s.subrange(j, j + w.len())[1]);
            crate::chars::lemma_not_keyword(s, j, UIDNEXT@, 1);
            assert(s[j + 1] == s.subrange(j, j + w.len())[1]);
            crate::chars::lemma_not_keyword(s, j, UIDVALIDITY@, 1);
        },
        StatusDataItemName::DeletedStorage => {
            assert(s[j + 0] == s.subrange(j, j + w.len())[0]);
            crate::chars::lemma_not_keyword(s, j, MESSAGES@, 0);
            assert(s[j + 0] == s.subrange(j, j + w.len())[0]);
            crate::chars::lemma_not_keyword(s, j, RECENT@, 0);
            assert(s[j + 0] == s.subrange(j, j + w.len())[0]);
            crate::chars::lemma_not_keyword(s, j, UIDNEXT@, 0);
            assert(s[j + 0] == s.subrange(j, j + w.len())[0]);
            crate::chars::lemma_not_keyword(s, j, UIDVALIDITY@, 0);
            assert(s[j + 0] == s.subrange(j, j + w.len())[0]);
            crate::chars::lemma_not_keyword(s, j, UNSEEN@, 0);
        },
        StatusDataItemName::Deleted => {
            assert(s[j + 0] == s.subrange(j, j + w.len())[0]);
            crate::chars::lemma_not_keyword(s, j, MESSAGES@, 0);
            assert(s[j + 0] == s.subrange(j, j + w.len())[0]);
            crate::chars::lemma_not_keyword(s, j, RECENT@, 0);
            assert(s[j + 0] == s.subrange(j, j + w.len())[0]);
            crate::chars::lemma_not_keyword(s, j, UIDNEXT@, 0);
            assert(s[j + 0] == s.subrange(j, j + w.len())[0]);
            crate::chars::lemma_not_keyword(s, j, UIDVALIDITY@, 0);
            assert(s[j + 0] == s.subrange(j, j + w.len())[0]);
            crate::chars::lemma_not_keyword(s, j, UNSEEN@, 0);
            crate::chars::lemma_not_keyword(s, j, DELETED_STORAGE@, 7);
        },
        StatusDataItemName::Size => {
            assert(s[j + 0] == s.subrange(j, j + w.len())[0]);
            crate::chars::lemma_not_keyword(s, j, MESSAGES@, 0);
            assert(s[j + 0] == s.subrange(j, j + w.len())[0]);
            crate::chars::lemma_not_keyword(s, j, RECENT@, 0);
            assert(s[j + 0] == s.subrange(j, j + w.len())[0]);
            crate::chars::lemma_not_keyword(s, j, UIDNEXT@, 0);
            assert(s[j + 0] == s.subrange(j, j + w.len())[0]);
            crate::chars::lemma_not_keyword(s, j, UIDVALIDITY@, 0);
            assert(s[j + 0] == s.subrange(j, j + w.len())[0]);
            crate::chars::lemma_not_keyword(s, j, UNSEEN@, 0);
            assert(s[j + 0] == s.subrange(j, j + w.len())[0]);
            crate::chars::lemma_not_keyword(s, j, DELETED_STORAGE@, 0);
            assert(s[j + 0] == s.subrange(j, j + w.len())[0]);
            crate::chars::lemma_not_keyword(s, j, DELETED@, 0);
        },
        StatusDataItemName::MailboxId => {
            assert(s[j + 1] == s.subrange(j, j + w.len())[1]);
            crate::chars::lemma_not_keyword(s, j, MESSAGES@, 1);
            assert(s[j + 0] == s.subrange(j, j + w.len())[0]);
            crate::chars::lemma_not_keyword(s, j, RECENT@, 0);
            assert(s[j + 0] == s.subrange(j, j + w.len())[0]);
            crate::chars::lemma_not_keyword(s, j, UIDNEXT@, 0);
            assert(s[j + 0] == s.subrange(j, j + w.len())[0]);
            crate::chars::lemma_not_keyword(s, j, UIDVALIDITY@, 0);
            assert(s[j + 0] == s.subrange(j, j + w.len())[0]);
            crate::chars::lemma_not_keyword(s, j, UNSEEN@, 0);
            assert(s[j + 0] == s.subrange(j, j + w.len())[0]);
            crate::chars::lemma_not_keyword(s, j, DELETED_STORAGE@, 0);
            assert(s[j + 0] == s.subrange(j, j + w.len())[0]);
            crate::chars::lemma_not_keyword(s, j, DELETED@, 0);
            assert(s[j + 0] == s.subrange(j, j + w.len())[0]);
            crate::chars::lemma_not_keyword(s, j, SIZE@, 0);
        },
    }
}

/// Whether a status value can be written and read back: the numbers
/// that cannot be zero are not, and an object identifier is one.
pub open spec fn writable_status_att_val(v: StatusDataItemV) -> bool {
    match v {
        StatusDataItemV::UidNext(n) => n != 0,
        StatusDataItemV::UidValidity(n) => n != 0,
        StatusDataItemV::MailboxId(o) => crate::objectid::spec_objectid_check(o) is Ok,
        _ => true,
    }
}

/// Each value that can be written, written at `j` and followed by a space
/// or `)`, reads back.
#[verifier::rlimit(100)]
pub proof fn lemma_status_att_val_round_trip(v: StatusDataItemV, s: Seq<u8>, j: int)
    requires
        writable_status_att_val(v),
        0 <= j,
        j + spec_write_status_att_val(v).len() < s.len(),
        s.subrange(j, j + spec_write_status_att_val(v).len()) == spec_write_status_att_val(v),
        s[j + spec_write_status_att_val(v).len()] == SP || s[j + spec_write_status_att_val(v).len()] == RPAREN,
    ensures
        spec_status_att_val(s, j) == Some((v, j + spec_write_status_att_val(v).len())),
{
    let w = spec_write_status_att_val(v);
    let e = j + w.len();
    assert forall|k: int| 0 <= k < w.len() implies s[j + k] == #[trigger] w[k] by {
        assert(s[j + k] == s.subrange(j, e)[k]);
    }
    match v {
        StatusDataItemV::Messages(n) => {
            crate::chars::lemma_part(s, j, w, 0, 9);
            assert(w.subrange(0, 9) =~= MESSAGES_SP@);
            crate::chars::lemma_keyword_at(s, j, MESSAGES_SP@);
            crate::chars::lemma_part(s, j, w, 9, w.len() - 9);
            assert(w.subrange(9, w.len() as int) =~= decimal(n as nat));
            crate::num::lemma_number_round_trip(n, s, j + 9);
        },
        StatusDataItemV::Recent(n) => {
            crate::chars::lemma_part(s, j, w, 0, 7);
            assert(w.subrange(0, 7) =~= RECENT_SP@);
            crate::chars::lemma_keyword_at(s, j, RECENT_SP@);
            crate::chars::lemma_part(s, j, w, 7, w.len() - 7);
            assert(w.subrange(7, w.len() as int) =~= decimal(n as nat));
            crate::num::lemma_number_round_trip(n, s, j + 7);
        },
        StatusDataItemV::UidNext(n) => {
            crate::chars::lemma_part(s, j, w, 0, 8);
            assert(w.subrange(0, 8) =~= UIDNEXT_SP@);
            crate::chars::lemma_keyword_at(s, j, UIDNEXT_SP@);
            crate::chars::lemma_part(s, j, w, 8, w.len() - 8);
            assert(w.subrange(8, w.len() as int) =~= decimal(n as nat));
            crate::num::lemma_nz_number_round_trip(n, s, j + 8);
        },
        StatusDataItemV::UidValidity(n) => {
            crate::chars::lemma_part(s, j, w, 0, 12);
            assert(w.subrange(0, 12) =~= UIDVALIDITY_SP@);
            crate::chars::lemma_keyword_at(s, j, UIDVALIDITY_SP@);
            crate::chars::lemma_part(s, j, w, 12, w.len() - 12);
            assert(w.subrange(12, w.len() as int) =~= decimal(n as nat));
            crate::num::lemma_nz_number_round_trip(n, s, j + 12);
        },
        StatusDataItemV::Unseen(n) => {
            crate::chars::lemma_part(s, j, w, 0, 7);
            assert(w.subrange(0, 7) =~= UNSEEN_SP@);
            crate::chars::lemma_keyword_at(s, j, UNSEEN_SP@);
            crate::chars::lemma_part(s, j, w, 7, w.len() - 7);
            assert(w.subrange(7, w.len() as int) =~= decimal(n as nat));
            crate::num::lemma_number_round_trip(n, s, j + 7);
        },
        StatusDataItemV::Deleted(n) => {
            crate::chars::lemma_part(s, j, w, 0, 8);
            assert(w.subrange(0, 8) =~= DELETED_SP@);
            crate::chars::lemma_keyword_at(s, j, DELETED_SP@);
            crate::chars::lemma_part(s, j, w, 8, w.len() - 8);
            assert(w.subrange(8, w.len() as int) =~= decimal(n as nat));
            crate::num::lemma_number_round_trip(n, s, j + 8);
        },
        StatusDataItemV::MailboxId(o) => {
            crate::chars::lemma_part(s, j, w, 0, 11);
            assert(w.subrange(0, 11) =~= MAILBOXID_SP_LPAREN@);
            crate::chars::lemma_keyword_at(s, j, MAILBOXID_SP_LPAREN@);
            crate::chars::lemma_part(s, j, w, 11, o.len() as int);
            assert(w.subrange(11, 11 + o.len() as int) =~= o);
            assert(s[j + 11 + o.len()] == w[11 + o.len() as int]);
            crate::objectid::lemma_objectid_round_trip(o, s, j + 11);
        },
    }
}

} // verus!

verus! {

// ---------------------------------------------------------------------
// The words each form is written with.

/// How each form of a status attribute is written, its words spelled out byte by byte.
pub proof fn lemma_status_att_name_spelled()
    ensures
        spec_status_att_name(StatusDataItemName::Messages) == seq![77u8, 69, 83, 83, 65, 71, 69, 83],
        spec_status_att_name(StatusDataItemName::Recent) == seq![82u8, 69, 67, 69, 78, 84],
        spec_status_att_name(StatusDataItemName::UidNext) == seq![85u8, 73, 68, 78, 69, 88, 84],
        spec_status_att_name(StatusDataItemName::UidValidity) == seq![85u8, 73, 68, 86, 65, 76, 73, 68, 73, 84, 89],
        spec_status_att_name(StatusDataItemName::Unseen) == seq![85u8, 78, 83, 69, 69, 78],
        spec_status_att_name(StatusDataItemName::DeletedStorage) == seq![68u8, 69, 76, 69, 84, 69, 68, 45, 83, 84, 79, 82, 65, 71, 69],
        spec_status_att_name(StatusDataItemName::Deleted) == seq![68u8, 69, 76, 69, 84, 69, 68],
        spec_status_att_name(StatusDataItemName::Size) == seq![83u8, 73, 90, 69],
        spec_status_att_name(StatusDataItemName::MailboxId) == seq![77u8, 65, 73, 76, 66, 79, 88, 73, 68],
{
    assert(DELETED@ =~= seq![68u8, 69, 76, 69, 84, 69, 68]);
    assert(DELETED_STORAGE@ =~= seq![68u8, 69, 76, 69, 84, 69, 68, 45, 83, 84, 79, 82, 65, 71, 69]);
    assert(MAILBOXID@ =~= seq![77u8, 65, 73, 76, 66, 79, 88, 73, 68]);
    assert(MESSAGES@ =~= seq![77u8, 69, 83, 83, 65, 71, 69, 83]);
    assert(RECENT@ =~= seq![82u8, 69, 67, 69, 78, 84]);
    assert(SIZE@ =~= seq![83u8, 73, 90, 69]);
    assert(UIDNEXT@ =~= seq![85u8, 73, 68, 78, 69, 88, 84]);
    assert(UIDVALIDITY@ =~= seq![85u8, 73, 68, 86, 65, 76, 73, 68, 73, 84, 89]);
    assert(UNSEEN@ =~= seq![85u8, 78, 83, 69, 69, 78]);
}

/// How each form of a status attribute and its value is written, its words spelled out byte by byte.
pub proof fn lemma_status_att_val_written()
    ensures
        forall|v: StatusDataItemV| #![trigger spec_write_status_att_val(v)] v matches StatusDataItemV::Messages(n) ==> spec_write_status_att_val(v) == seq![77u8, 69, 83, 83, 65, 71, 69, 83, 32] + decimal(n as nat),
        forall|v: StatusDataItemV| #![trigger spec_write_status_att_val(v)] v matches StatusDataItemV::Recent(n) ==> spec_write_status_att_val(v) == seq![82u8, 69, 67, 69, 78, 84, 32] + decimal(n as nat),
        forall|v: StatusDataItemV| #![trigger spec_write_status_att_val(v)] v matches StatusDataItemV::UidNext(n) ==> spec_write_status_att_val(v) == seq![85u8, 73, 68, 78, 69, 88, 84, 32] + decimal(n as nat),
        forall|v: StatusDataItemV| #![trigger spec_write_status_att_val(v)] v matches StatusDataItemV::UidValidity(n) ==> spec_write_status_att_val(v) == seq![85u8, 73, 68, 86, 65, 76, 73, 68, 73, 84, 89, 32] + decimal(n as nat),
        forall|v: StatusDataItemV| #![trigger spec_write_status_att_val(v)] v matches StatusDataItemV::Unseen(n) ==> spec_write_status_att_val(v) == seq![85u8, 78, 83, 69, 69, 78, 32] + decimal(n as nat),
        forall|v: StatusDataItemV| #![trigger spec_write_status_att_val(v)] v matches StatusDataItemV::Deleted(n) ==> spec_write_status_att_val(v) == seq![68u8, 69, 76, 69, 84, 69, 68, 32] + decimal(n as nat),
        forall|v: StatusDataItemV| #![trigger spec_write_status_att_val(v)] v matches StatusDataItemV::MailboxId(o) ==> spec_write_status_att_val(v) == seq![77u8, 65, 73, 76, 66, 79, 88, 73, 68, 32, 40] + o + seq![RPAREN],
{
    assert(DELETED_SP@ =~= seq![68u8, 69, 76, 69, 84, 69, 68, 32]);
    assert(MAILBOXID_SP_LPAREN@ =~= seq![77u8, 65, 73, 76, 66, 79, 88, 73, 68, 32, 40]);
    assert(MESSAGES_SP@ =~= seq![77u8, 69, 83, 83, 65, 71, 69, 83, 32]);
    assert(RECENT_SP@ =~= seq![82u8, 69, 67, 69, 78, 84, 32]);
    assert(UIDNEXT_SP@ =~= seq![85u8, 73, 68, 78, 69, 88, 84, 32]);
    assert(UIDVALIDITY_SP@ =~= seq![85u8, 73, 68, 86, 65, 76, 73, 68, 73, 84, 89, 32]);
    assert(UNSEEN_SP@ =~= seq![85u8, 78, 83, 69, 69, 78, 32]);
}

} // verus!
