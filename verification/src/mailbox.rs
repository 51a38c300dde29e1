//! Mailbox names: `INBOX` and the others, the patterns and options of an
//! extended `LIST` (RFC 5258, RFC 5819, RFC 6154), special-use
//! attributes, and the extended data items of a `LIST` response.

use vstd::prelude::*;
use vstd::string::StringSliceAdditionalSpecFns;

use crate::chars::{
    all_in, byte, keyword, put, spec_byte, spec_keyword, spec_token, token, ByteClass, BACKSLASH, DQUOTE,
    LPAREN, RPAREN, SP,
};
use crate::rule::{join, read_paren_list, read_view, spec_paren_list, written, write_joined, Rule, Writer};
use crate::status::{spec_status_att_name, StatusAttRule, StatusAttWriter, StatusDataItemName};
use crate::strings::{
    check_bytes, read_astring, read_string, spec_astring, spec_astring_of, spec_check_bytes,
    spec_istring_of, spec_string, spec_write_str, write_astring, write_istring, AString, Atom, IString,
    StrKind, StrV, ValidationError,
};
use crate::vec1::Vec1;

verus! {

/// `INBOX`
pub const INBOX: [u8; 5] = [73, 78, 66, 79, 88];

/// Whether `b` is the word `kw`, in any case.
pub open spec fn is_word(b: Seq<u8>, kw: Seq<u8>) -> bool {
    b.len() == kw.len() && spec_keyword(b, 0, kw)
}

/// Whether `b` is the word `kw`, in any case.
pub fn word_is(b: &[u8], kw: &[u8]) -> (r: bool)
    ensures
        r == is_word(b@, kw@),
{
    b.len() == kw.len() && keyword(b, 0, kw)
}

// ---------------------------------------------------------------------
// List patterns.

/// `1*list-char`: a mailbox pattern written without quotes.
#[derive(Debug, PartialEq, Eq, Hash)]
pub struct ListCharString(Vec<u8>);

impl ListCharString {
    #[verifier::type_invariant]
    spec fn inv(self) -> bool {
        spec_check_bytes(self.0@, ByteClass::List, false) is Ok
    }

    /// Whether a value may stand unquoted as a pattern: not empty, and
    /// every byte a `list-char`.
    pub fn validate(value: &[u8]) -> (r: Result<(), ValidationError>)
        ensures
            r == spec_check_bytes(value@, ByteClass::List, false),
    {
        check_bytes(value, ByteClass::List, false)
    }

    /// The pattern of a value that is known to be valid.
    pub fn unvalidated(inner: Vec<u8>) -> (r: ListCharString)
        requires
            spec_check_bytes(inner@, ByteClass::List, false) is Ok,
        ensures
            r.deep_view() == inner@,
    {
        ListCharString(inner)
    }

    /// The pattern of a value, or why it cannot be one.
    pub fn try_from_bytes(value: &[u8]) -> (r: Result<ListCharString, ValidationError>)
        ensures
            r matches Ok(l) ==> l.deep_view() == value@ && spec_check_bytes(value@, ByteClass::List, false) is Ok,
            r matches Err(e) ==> spec_check_bytes(value@, ByteClass::List, false) == Err::<(), ValidationError>(e),
    {
        match ListCharString::validate(value) {
            Ok(()) => Ok(ListCharString(crate::chars::copy_of(value))),
            Err(e) => Err(e),
        }
    }

    /// The bytes.
    pub fn as_bytes(&self) -> (r: &[u8])
        ensures
            r@ == self.deep_view(),
            spec_check_bytes(r@, ByteClass::List, false) is Ok,
    {
        proof {
            use_type_invariant(self);
        }
        self.0.as_slice()
    }
}

impl DeepView for ListCharString {
    type V = Seq<u8>;

    closed spec fn deep_view(&self) -> Seq<u8> {
        self.0@
    }
}

impl Clone for ListCharString {
    fn clone(&self) -> (r: Self)
        ensures
            r.deep_view() == self.deep_view(),
    {
        ListCharString::unvalidated(crate::chars::copy_of(self.as_bytes()))
    }
}

/// `list-mailbox = 1*list-char / string`
#[derive(Debug, PartialEq, Eq, Hash)]
pub enum ListMailbox {
    Token(ListCharString),
    String(IString),
}

/// The model of a [`ListMailbox`].
pub enum ListMailboxV {
    Token(Seq<u8>),
    String(StrV),
}

impl DeepView for ListMailbox {
    type V = ListMailboxV;

    open spec fn deep_view(&self) -> ListMailboxV {
        match self {
            ListMailbox::Token(t) => ListMailboxV::Token(t.deep_view()),
            ListMailbox::String(s) => ListMailboxV::String(s.deep_view()),
        }
    }
}

impl Clone for ListMailbox {
    fn clone(&self) -> (r: Self)
        ensures
            r.deep_view() == self.deep_view(),
    {
        match self {
            ListMailbox::Token(t) => ListMailbox::Token(t.clone()),
            ListMailbox::String(s) => ListMailbox::String(s.clone()),
        }
    }
}

/// The pattern a value is written as: the empty pattern quoted, a token
/// where every byte may stand unquoted, and a string otherwise.
pub open spec fn spec_list_mailbox_of(b: Seq<u8>) -> Result<ListMailboxV, ValidationError> {
    if b.len() == 0 {
        Ok(ListMailboxV::String(StrV { kind: StrKind::Quoted, bytes: b }))
    } else if all_in(b, ByteClass::List) {
        Ok(ListMailboxV::Token(b))
    } else {
        match spec_istring_of(b) {
            Ok(v) => Ok(ListMailboxV::String(v)),
            Err(e) => Err(e),
        }
    }
}

impl ListMailbox {
    /// The pattern of a value, or why there is none.
    pub fn try_from_bytes(b: &[u8]) -> (r: Result<ListMailbox, ValidationError>)
        ensures
            r matches Ok(m) ==> spec_list_mailbox_of(b@) == Ok::<ListMailboxV, ValidationError>(m.deep_view()),
            r matches Err(e) ==> spec_list_mailbox_of(b@) == Err::<ListMailboxV, ValidationError>(e),
    {
        if b.len() == 0 {
            return match IString::try_from_bytes(b) {
                Ok(s) => {
                    proof {
                        assert(all_in(b@, ByteClass::Text));
                    }
                    Ok(ListMailbox::String(s))
                },
                Err(e) => Err(e),
            };
        }
        if let Ok(t) = ListCharString::try_from_bytes(b) {
            return Ok(ListMailbox::Token(t));
        }
        match IString::try_from_bytes(b) {
            Ok(s) => Ok(ListMailbox::String(s)),
            Err(e) => Err(e),
        }
    }

    /// The pattern of a text, or why there is none.
    pub fn try_from_str(s: &str) -> (r: Result<ListMailbox, ValidationError>)
        ensures
            r matches Ok(m) ==> spec_list_mailbox_of(s.spec_bytes()) == Ok::<ListMailboxV, ValidationError>(m.deep_view()),
            r matches Err(e) ==> spec_list_mailbox_of(s.spec_bytes()) == Err::<ListMailboxV, ValidationError>(e),
    {
        ListMailbox::try_from_bytes(s.as_bytes())
    }
}

// ---------------------------------------------------------------------
// Mailboxes.

/// A mailbox name: `mailbox = "INBOX" / astring`. Any spelling of `INBOX`
/// in any case is the inbox, and no other name is.
#[derive(Debug, PartialEq, Eq, Hash)]
pub enum Mailbox {
    Inbox,
    Other(MailboxOther),
}

/// A mailbox other than the inbox.
#[derive(Debug, PartialEq, Eq, Hash)]
pub struct MailboxOther(AString);

/// Why a name cannot be a mailbox other than the inbox.
#[derive(Clone, Copy, Debug, PartialEq, Eq, Hash)]
pub enum MailboxOtherError {
    /// The name is not an `astring`.
    Literal(ValidationError),
    /// The name is `INBOX`, which has a variant of its own.
    Reserved,
}

/// The model of a [`Mailbox`].
pub enum MailboxV {
    Inbox,
    Other(StrV),
}

impl MailboxOther {
    #[verifier::type_invariant]
    spec fn inv(self) -> bool {
        !is_word(self.0.deep_view().bytes, INBOX@)
    }

    /// Whether a name may be a mailbox other than the inbox.
    pub fn validate(value: &[u8]) -> (r: Result<(), MailboxOtherError>)
        ensures
            r == (if is_word(value@, INBOX@) {
                Err(MailboxOtherError::Reserved)
            } else {
                Ok(())
            }),
    {
        let inbox = INBOX;
        if word_is(value, inbox.as_slice()) {
            Err(MailboxOtherError::Reserved)
        } else {
            Ok(())
        }
    }

    /// The name.
    pub fn inner(&self) -> (r: &AString)
        ensures
            r.deep_view() == self.deep_view(),
            !is_word(r.deep_view().bytes, INBOX@),
    {
        proof {
            use_type_invariant(self);
        }
        &self.0
    }

    /// The mailbox of a name that is known not to be `INBOX`.
    pub fn unvalidated(value: AString) -> (r: MailboxOther)
        requires
            !is_word(value.deep_view().bytes, INBOX@),
        ensures
            r.deep_view() == value.deep_view(),
    {
        MailboxOther(value)
    }

    /// The mailbox of a name, unless the name is `INBOX`.
    pub fn try_from_astring(value: AString) -> (r: Result<MailboxOther, MailboxOtherError>)
        ensures
            r matches Ok(m) ==> m.deep_view() == value.deep_view(),
            r is Err <==> is_word(value.deep_view().bytes, INBOX@),
            r matches Err(e) ==> e == MailboxOtherError::Reserved,
    {
        match MailboxOther::validate(value.as_bytes()) {
            Ok(()) => Ok(MailboxOther(value)),
            Err(e) => Err(e),
        }
    }

    /// The mailbox of a name given as bytes, written as `astring` writes
    /// it, unless the name is `INBOX` or no `astring`.
    pub fn try_from_bytes(value: &[u8]) -> (r: Result<MailboxOther, MailboxOtherError>)
        ensures
            r matches Ok(m) ==> spec_astring_of(value@) == Ok::<StrV, ValidationError>(m.deep_view())
                && !is_word(value@, INBOX@),
            r matches Err(e) ==> match spec_astring_of(value@) {
                Err(v) => e == MailboxOtherError::Literal(v),
                Ok(_) => e == MailboxOtherError::Reserved && is_word(value@, INBOX@),
            },
    {
        match AString::try_from_bytes(value) {
            Ok(a) => MailboxOther::try_from_astring(a),
            Err(e) => Err(MailboxOtherError::Literal(e)),
        }
    }
}

impl DeepView for MailboxOther {
    type V = StrV;

    closed spec fn deep_view(&self) -> StrV {
        self.0.deep_view()
    }
}

impl Clone for MailboxOther {
    fn clone(&self) -> (r: Self)
        ensures
            r.deep_view() == self.deep_view(),
    {
        MailboxOther::unvalidated(self.inner().clone())
    }
}

impl DeepView for Mailbox {
    type V = MailboxV;

    open spec fn deep_view(&self) -> MailboxV {
        match self {
            Mailbox::Inbox => MailboxV::Inbox,
            Mailbox::Other(o) => MailboxV::Other(o.deep_view()),
        }
    }
}

impl Clone for Mailbox {
    fn clone(&self) -> (r: Self)
        ensures
            r.deep_view() == self.deep_view(),
    {
        match self {
            Mailbox::Inbox => Mailbox::Inbox,
            Mailbox::Other(o) => Mailbox::Other(o.clone()),
        }
    }
}

/// The mailbox a name stands for.
pub open spec fn spec_mailbox_of(v: StrV) -> MailboxV {
    if is_word(v.bytes, INBOX@) {
        MailboxV::Inbox
    } else {
        MailboxV::Other(v)
    }
}

/// Whether a mailbox's model is one a mailbox can have.
pub open spec fn wf_mailbox(m: MailboxV) -> bool {
    match m {
        MailboxV::Inbox => true,
        MailboxV::Other(v) => !is_word(v.bytes, INBOX@),
    }
}

impl Mailbox {
    /// The mailbox a name stands for: `INBOX` in any case is the inbox.
    pub fn from_astring(value: AString) -> (r: Mailbox)
        ensures
            r.deep_view() == spec_mailbox_of(value.deep_view()),
    {
        let inbox = INBOX;
        if word_is(value.as_bytes(), inbox.as_slice()) {
            Mailbox::Inbox
        } else {
            Mailbox::Other(MailboxOther::unvalidated(value))
        }
    }

    /// The mailbox of a name given as bytes, or why the bytes are no name.
    pub fn try_from_bytes(value: &[u8]) -> (r: Result<Mailbox, ValidationError>)
        ensures
            r matches Ok(m) ==> spec_astring_of(value@) matches Ok(v) && m.deep_view() == spec_mailbox_of(v),
            r matches Err(e) ==> spec_astring_of(value@) == Err::<StrV, ValidationError>(e),
    {
        match AString::try_from_bytes(value) {
            Ok(a) => Ok(Mailbox::from_astring(a)),
            Err(e) => Err(e),
        }
    }

    /// The mailbox of a name, or why the text is no name.
    pub fn try_from_str(value: &str) -> (r: Result<Mailbox, ValidationError>)
        ensures
            r matches Ok(m) ==> spec_astring_of(value.spec_bytes()) matches Ok(v) && m.deep_view() == spec_mailbox_of(v),
            r matches Err(e) ==> spec_astring_of(value.spec_bytes()) == Err::<StrV, ValidationError>(e),
    {
        Mailbox::try_from_bytes(value.as_bytes())
    }

}

} // verus!

verus! {

// ---------------------------------------------------------------------
// Special-use attributes (RFC 6154).

/// `All`
pub const USE_ALL: [u8; 3] = [65, 108, 108];
/// `Archive`
pub const USE_ARCHIVE: [u8; 7] = [65, 114, 99, 104, 105, 118, 101];
/// `Drafts`
pub const USE_DRAFTS: [u8; 6] = [68, 114, 97, 102, 116, 115];
/// `Flagged`
pub const USE_FLAGGED: [u8; 7] = [70, 108, 97, 103, 103, 101, 100];
/// `Junk`
pub const USE_JUNK: [u8; 4] = [74, 117, 110, 107];
/// `Sent`
pub const USE_SENT: [u8; 4] = [83, 101, 110, 116];
/// `Trash`
pub const USE_TRASH: [u8; 5] = [84, 114, 97, 115, 104];

/// What a mailbox is for: RFC 6154's special-use attributes.
///
/// `use-attr = "\All" / "\Archive" / "\Drafts" / "\Flagged" / "\Junk" /
/// "\Sent" / "\Trash" / use-attr-ext`
#[derive(Debug, PartialEq, Eq, Hash)]
pub enum MailboxUse {
    /// Every message, however it is filed.
    All,
    /// Kept but out of the way.
    Archive,
    /// Written and not sent.
    Drafts,
    /// Marked as important.
    Flagged,
    /// Spam.
    Junk,
    /// Sent.
    Sent,
    /// Deleted, pending removal.
    Trash,
    /// `use-attr-ext`: an attribute this crate has no name for.
    Other(MailboxUseOther),
}

/// A special-use attribute this crate has no name for.
#[derive(Debug, PartialEq, Eq, Hash)]
pub struct MailboxUseOther(Atom);

/// The model of a [`MailboxUse`].
pub enum MailboxUseV {
    All,
    Archive,
    Drafts,
    Flagged,
    Junk,
    Sent,
    Trash,
    Other(Seq<u8>),
}

/// Whether a name is one of the attributes this crate has a name for.
pub open spec fn is_known_use(b: Seq<u8>) -> bool {
    is_word(b, USE_ALL@) || is_word(b, USE_ARCHIVE@) || is_word(b, USE_DRAFTS@) || is_word(b, USE_FLAGGED@)
        || is_word(b, USE_JUNK@) || is_word(b, USE_SENT@) || is_word(b, USE_TRASH@)
}

impl MailboxUseOther {
    #[verifier::type_invariant]
    spec fn inv(self) -> bool {
        !is_known_use(self.0.deep_view())
    }

    /// The attribute's name.
    pub fn as_bytes(&self) -> (r: &[u8])
        ensures
            r@ == self.deep_view(),
            !is_known_use(r@),
    {
        proof {
            use_type_invariant(self);
        }
        self.0.as_bytes()
    }
}

impl DeepView for MailboxUseOther {
    type V = Seq<u8>;

    closed spec fn deep_view(&self) -> Seq<u8> {
        self.0.deep_view()
    }
}

impl DeepView for MailboxUse {
    type V = MailboxUseV;

    open spec fn deep_view(&self) -> MailboxUseV {
        match self {
            MailboxUse::All => MailboxUseV::All,
            MailboxUse::Archive => MailboxUseV::Archive,
            MailboxUse::Drafts => MailboxUseV::Drafts,
            MailboxUse::Flagged => MailboxUseV::Flagged,
            MailboxUse::Junk => MailboxUseV::Junk,
            MailboxUse::Sent => MailboxUseV::Sent,
            MailboxUse::Trash => MailboxUseV::Trash,
            MailboxUse::Other(o) => MailboxUseV::Other(o.deep_view()),
        }
    }
}

/// The attribute an atom names, its case ignored.
pub open spec fn spec_mailbox_use_of(b: Seq<u8>) -> MailboxUseV {
    if is_word(b, USE_ALL@) {
        MailboxUseV::All
    } else if is_word(b, USE_ARCHIVE@) {
        MailboxUseV::Archive
    } else if is_word(b, USE_DRAFTS@) {
        MailboxUseV::Drafts
    } else if is_word(b, USE_FLAGGED@) {
        MailboxUseV::Flagged
    } else if is_word(b, USE_JUNK@) {
        MailboxUseV::Junk
    } else if is_word(b, USE_SENT@) {
        MailboxUseV::Sent
    } else if is_word(b, USE_TRASH@) {
        MailboxUseV::Trash
    } else {
        MailboxUseV::Other(b)
    }
}

/// The name of an attribute, without its backslash.
pub open spec fn spec_use_name(u: MailboxUseV) -> Seq<u8> {
    match u {
        MailboxUseV::All => USE_ALL@,
        MailboxUseV::Archive => USE_ARCHIVE@,
        MailboxUseV::Drafts => USE_DRAFTS@,
        MailboxUseV::Flagged => USE_FLAGGED@,
        MailboxUseV::Junk => USE_JUNK@,
        MailboxUseV::Sent => USE_SENT@,
        MailboxUseV::Trash => USE_TRASH@,
        MailboxUseV::Other(b) => b,
    }
}

impl MailboxUse {
    /// The attribute an atom names, its case ignored.
    pub fn from_atom(value: Atom) -> (r: MailboxUse)
        ensures
            r.deep_view() == spec_mailbox_use_of(value.deep_view()),
    {
        let b = value.as_bytes();
        let k = USE_ALL;
        if word_is(b, k.as_slice()) {
            return MailboxUse::All;
        }
        let k = USE_ARCHIVE;
        if word_is(b, k.as_slice()) {
            return MailboxUse::Archive;
        }
        let k = USE_DRAFTS;
        if word_is(b, k.as_slice()) {
            return MailboxUse::Drafts;
        }
        let k = USE_FLAGGED;
        if word_is(b, k.as_slice()) {
            return MailboxUse::Flagged;
        }
        let k = USE_JUNK;
        if word_is(b, k.as_slice()) {
            return MailboxUse::Junk;
        }
        let k = USE_SENT;
        if word_is(b, k.as_slice()) {
            return MailboxUse::Sent;
        }
        let k = USE_TRASH;
        if word_is(b, k.as_slice()) {
            return MailboxUse::Trash;
        }
        MailboxUse::Other(MailboxUseOther(value))
    }

    /// How the attribute is written: a backslash and its name.
    pub fn to_bytes(&self) -> (r: Vec<u8>)
        ensures
            r@ == seq![BACKSLASH] + spec_use_name(self.deep_view()),
    {
        let mut out: Vec<u8> = Vec::new();
        out.push(BACKSLASH);
        match self {
            MailboxUse::All => put(&mut out, USE_ALL.as_slice()),
            MailboxUse::Archive => put(&mut out, USE_ARCHIVE.as_slice()),
            MailboxUse::Drafts => put(&mut out, USE_DRAFTS.as_slice()),
            MailboxUse::Flagged => put(&mut out, USE_FLAGGED.as_slice()),
            MailboxUse::Junk => put(&mut out, USE_JUNK.as_slice()),
            MailboxUse::Sent => put(&mut out, USE_SENT.as_slice()),
            MailboxUse::Trash => put(&mut out, USE_TRASH.as_slice()),
            MailboxUse::Other(o) => put(&mut out, o.as_bytes()),
        }
        assert(out@ =~= seq![BACKSLASH] + spec_use_name(self.deep_view()));
        out
    }
}

// ---------------------------------------------------------------------
// Patterns of a `LIST`.

/// `std::slice::from_ref`: the slice of one item.
#[verifier::external_body]
fn slice_of_one<T>(item: &T) -> (r: &[T])
    ensures
        r@ == seq![*item],
{
    std::slice::from_ref(item)
}

/// The mailbox patterns of a `LIST` command. One pattern in parentheses
/// is not the same command as the same pattern bare (RFC 5258 Section 3),
/// so the two spellings are kept apart.
///
/// `mbox-or-pat = list-mailbox / patterns`, `patterns = "(" list-mailbox
/// *(SP list-mailbox) ")"`
#[derive(Debug, PartialEq, Eq, Hash)]
pub enum ListPatterns {
    /// One pattern, not in parentheses.
    One(ListMailbox),
    /// Patterns in parentheses.
    Several(Vec1<ListMailbox>),
}

/// The model of [`ListPatterns`].
pub enum ListPatternsV {
    One(ListMailboxV),
    Several(Seq<ListMailboxV>),
}

impl DeepView for ListPatterns {
    type V = ListPatternsV;

    open spec fn deep_view(&self) -> ListPatternsV {
        match self {
            ListPatterns::One(m) => ListPatternsV::One(m.deep_view()),
            ListPatterns::Several(ms) => ListPatternsV::Several(ms.deep_view()),
        }
    }
}

/// The patterns, however they were written.
pub open spec fn spec_patterns(p: ListPatternsV) -> Seq<ListMailboxV> {
    match p {
        ListPatternsV::One(m) => seq![m],
        ListPatternsV::Several(ms) => ms,
    }
}

impl ListPatterns {
    /// The patterns, however they were written.
    pub fn as_slice(&self) -> (r: &[ListMailbox])
        ensures
            r.deep_view() == spec_patterns(self.deep_view()),
            r@.len() > 0,
    {
        match self {
            ListPatterns::One(one) => {
                let r = slice_of_one(one);
                assert(r.deep_view() =~= seq![one.deep_view()]);
                r
            },
            ListPatterns::Several(several) => several.as_slice_dv(),
        }
    }

    /// One pattern, not in parentheses.
    pub fn from_one(one: ListMailbox) -> (r: ListPatterns)
        ensures
            r.deep_view() == ListPatternsV::One(one.deep_view()),
    {
        ListPatterns::One(one)
    }
}

} // verus!

verus! {

// ---------------------------------------------------------------------
// Options of a `LIST`.

/// `CHILDREN`
pub const CHILDREN: [u8; 8] = [67, 72, 73, 76, 68, 82, 69, 78];
/// `STATUS `
pub const STATUS_SP: [u8; 7] = [83, 84, 65, 84, 85, 83, 32];
/// `RETURN `
pub const RETURN_SP: [u8; 7] = [82, 69, 84, 85, 82, 78, 32];
/// `CHILDINFO`
pub const CHILDINFO: [u8; 9] = [67, 72, 73, 76, 68, 73, 78, 70, 79];
/// `OLDNAME`
pub const OLDNAME: [u8; 7] = [79, 76, 68, 78, 65, 77, 69];
/// `STATUS (`
pub const STATUS_SP_LPAREN: [u8; 8] = [83, 84, 65, 84, 85, 83, 32, 40];
/// `RETURN (`
pub const RETURN_SP_LPAREN: [u8; 8] = [82, 69, 84, 85, 82, 78, 32, 40];
/// `"CHILDINFO" (`
pub const QUOTED_CHILDINFO_SP_LPAREN: [u8; 13] = [34, 67, 72, 73, 76, 68, 73, 78, 70, 79, 34, 32, 40];
/// `"OLDNAME" (`
pub const QUOTED_OLDNAME_SP_LPAREN: [u8; 11] = [34, 79, 76, 68, 78, 65, 77, 69, 34, 32, 40];

/// `SUBSCRIBED`
pub const SUBSCRIBED: [u8; 10] = [83, 85, 66, 83, 67, 82, 73, 66, 69, 68];

/// `REMOTE`
pub const REMOTE: [u8; 6] = [82, 69, 77, 79, 84, 69];

/// `RECURSIVEMATCH`
pub const RECURSIVEMATCH: [u8; 14] = [82, 69, 67, 85, 82, 83, 73, 86, 69, 77, 65, 84, 67, 72];

/// `SPECIAL-USE`
pub const SPECIAL_USE: [u8; 11] = [83, 80, 69, 67, 73, 65, 76, 45, 85, 83, 69];

/// A `LIST` selection option (RFC 5258 Section 3.1, RFC 6154 Section 5.1). Option names are case-insensitive; an option this crate has no name for is not read, so that the server can refuse it with `BAD`.
#[derive(Clone, Copy, Debug, PartialEq, Eq, Hash)]
pub enum ListSelectOption {
    /// Only subscribed names, including subscribed names that do not exist (a base option).
    Subscribed,
    /// Remote mailboxes too (an independent option).
    Remote,
    /// Also a name whose descendant meets the criteria (a modifier: it needs a base option beside it).
    RecursiveMatch,
    /// Only mailboxes with a special-use attribute (RFC 6154; a base option).
    SpecialUse,
}

impl DeepView for ListSelectOption {
    type V = ListSelectOption;

    open spec fn deep_view(&self) -> ListSelectOption {
        *self
    }
}

/// The word that names each [`ListSelectOption`].
pub open spec fn spec_select_option_name(v: ListSelectOption) -> Seq<u8> {
    match v {
        ListSelectOption::Subscribed => SUBSCRIBED@,
        ListSelectOption::Remote => REMOTE@,
        ListSelectOption::RecursiveMatch => RECURSIVEMATCH@,
        ListSelectOption::SpecialUse => SPECIAL_USE@,
    }
}

/// Reads a [`ListSelectOption`]: the words in the order they are tried.
pub open spec fn spec_list_select_opt(s: Seq<u8>, i: int) -> Option<(ListSelectOption, int)> {
    let r = crate::search::flag(s, i, SUBSCRIBED@, ListSelectOption::Subscribed);
    let r = crate::search::alt(r, crate::search::flag(s, i, REMOTE@, ListSelectOption::Remote));
    let r = crate::search::alt(r, crate::search::flag(s, i, RECURSIVEMATCH@, ListSelectOption::RecursiveMatch));
    let r = crate::search::alt(r, crate::search::flag(s, i, SPECIAL_USE@, ListSelectOption::SpecialUse));
    r
}

/// The rule that reads a [`ListSelectOption`].
pub struct ListSelectOptRule;

impl Rule for ListSelectOptRule {
    type Out = ListSelectOption;

    open spec fn spec_read(&self, s: Seq<u8>, i: int) -> Option<(ListSelectOption, int)> {
        spec_list_select_opt(s, i)
    }

    fn read(&self, s: &[u8], i: usize) -> (r: Option<(ListSelectOption, usize)>) {
        let w_subscribed = SUBSCRIBED;
        if keyword(s, i, w_subscribed.as_slice()) {
            return Some((ListSelectOption::Subscribed, i + w_subscribed.len()));
        }
        let w_remote = REMOTE;
        if keyword(s, i, w_remote.as_slice()) {
            return Some((ListSelectOption::Remote, i + w_remote.len()));
        }
        let w_recursivematch = RECURSIVEMATCH;
        if keyword(s, i, w_recursivematch.as_slice()) {
            return Some((ListSelectOption::RecursiveMatch, i + w_recursivematch.len()));
        }
        let w_special_use = SPECIAL_USE;
        if keyword(s, i, w_special_use.as_slice()) {
            return Some((ListSelectOption::SpecialUse, i + w_special_use.len()));
        }
        None
    }
}

impl ListSelectOption {
    /// The word that names it.
    pub fn as_bytes(&self) -> (r: &'static [u8])
        ensures
            r@ == spec_select_option_name(*self),
    {
        match self {
            ListSelectOption::Subscribed => SUBSCRIBED.as_slice(),
            ListSelectOption::Remote => REMOTE.as_slice(),
            ListSelectOption::RecursiveMatch => RECURSIVEMATCH.as_slice(),
            ListSelectOption::SpecialUse => SPECIAL_USE.as_slice(),
        }
    }
}

/// Writes a [`ListSelectOption`].
pub fn write_list_select_opt(out: &mut Vec<u8>, v: &ListSelectOption)
    ensures
        final(out)@ == old(out)@ + spec_select_option_name(*v),
{
    put(out, v.as_bytes());
}


/// Whether an option is a base option, which is what a modifier such as
/// `RECURSIVEMATCH` modifies.
pub open spec fn is_base_option(o: ListSelectOption) -> bool {
    o == ListSelectOption::Subscribed || o == ListSelectOption::SpecialUse
}

/// Whether an option is an independent option, which may be the only
/// kind in the list.
pub open spec fn is_independent_option(o: ListSelectOption) -> bool {
    o == ListSelectOption::Remote
}

/// Whether a list of options is one RFC 5258 Section 6 allows: empty,
/// holding a base option, or holding independent options only.
pub open spec fn spec_valid_combination(os: Seq<ListSelectOption>) -> bool {
    (exists|k: int| 0 <= k < os.len() && is_base_option(#[trigger] os[k]))
        || (forall|k: int| 0 <= k < os.len() ==> is_independent_option(#[trigger] os[k]))
}

impl ListSelectOption {
    /// Whether this is a base option.
    pub fn is_base(&self) -> (r: bool)
        ensures
            r == is_base_option(*self),
    {
        match self {
            ListSelectOption::Subscribed | ListSelectOption::SpecialUse => true,
            _ => false,
        }
    }

    /// Whether this is an independent option.
    pub fn is_independent(&self) -> (r: bool)
        ensures
            r == is_independent_option(*self),
    {
        match self {
            ListSelectOption::Remote => true,
            _ => false,
        }
    }

    /// Whether a list of options is one RFC 5258 Section 6 allows: empty,
    /// holding a base option, or holding independent options only. So
    /// `(RECURSIVEMATCH)` and `(RECURSIVEMATCH REMOTE)` are not.
    pub fn valid_combination(options: &[ListSelectOption]) -> (r: bool)
        ensures
            r == spec_valid_combination(options@),
    {
        let mut k: usize = 0;
        while k < options.len()
            invariant
                k <= options@.len(),
                forall|q: int| 0 <= q < k ==> !is_base_option(#[trigger] options@[q]),
            decreases options@.len() - k,
        {
            if options[k].is_base() {
                return true;
            }
            k = k + 1;
        }
        let mut k: usize = 0;
        while k < options.len()
            invariant
                k <= options@.len(),
                forall|q: int| 0 <= q < options@.len() ==> !is_base_option(#[trigger] options@[q]),
                forall|q: int| 0 <= q < k ==> is_independent_option(#[trigger] options@[q]),
            decreases options@.len() - k,
        {
            if !options[k].is_independent() {
                return false;
            }
            k = k + 1;
        }
        true
    }
}

/// A `LIST` return option (RFC 5258 Section 3.2, RFC 5819 Section 2, RFC
/// 6154 Section 5.1). An option this crate has no name for is not read.
#[derive(Debug, PartialEq, Eq, Hash)]
pub enum ListReturnOption {
    /// `\Subscribed` on each name that is subscribed.
    Subscribed,
    /// `\HasChildren` or `\HasNoChildren` on each name.
    Children,
    /// A `STATUS` response for each selectable mailbox listed.
    Status(Vec1<StatusDataItemName>),
    /// The special-use attributes of each mailbox.
    SpecialUse,
}

/// The model of a [`ListReturnOption`].
pub enum ListReturnOptionV {
    Subscribed,
    Children,
    Status(Seq<StatusDataItemName>),
    SpecialUse,
}

impl DeepView for ListReturnOption {
    type V = ListReturnOptionV;

    open spec fn deep_view(&self) -> ListReturnOptionV {
        match self {
            ListReturnOption::Subscribed => ListReturnOptionV::Subscribed,
            ListReturnOption::Children => ListReturnOptionV::Children,
            ListReturnOption::Status(items) => ListReturnOptionV::Status(items.deep_view()),
            ListReturnOption::SpecialUse => ListReturnOptionV::SpecialUse,
        }
    }
}

/// An extended data item at the end of a `LIST` response (RFC 5258
/// Sections 3.5 and 6). Only the two items RFC 5258 defines are read.
#[derive(Debug, PartialEq, Eq, Hash)]
pub enum ListExtendedItem {
    /// `RECURSIVEMATCH` listed this name because a descendant meets these
    /// selection criteria.
    ChildInfo(Vec1<ListSelectOption>),
    /// The mailbox was renamed from this name.
    OldName(Mailbox),
}

/// The model of a [`ListExtendedItem`].
pub enum ListExtendedItemV {
    ChildInfo(Seq<ListSelectOption>),
    OldName(MailboxV),
}

impl DeepView for ListExtendedItem {
    type V = ListExtendedItemV;

    open spec fn deep_view(&self) -> ListExtendedItemV {
        match self {
            ListExtendedItem::ChildInfo(os) => ListExtendedItemV::ChildInfo(os.deep_view()),
            ListExtendedItem::OldName(m) => ListExtendedItemV::OldName(m.deep_view()),
        }
    }
}

} // verus!

verus! {

// ---------------------------------------------------------------------
// Reading.

/// `list-mailbox = 1*list-char / string`
pub open spec fn spec_list_mailbox(s: Seq<u8>, i: int) -> Option<(ListMailboxV, int)> {
    match spec_token(s, i, ByteClass::List) {
        Some(e) => Some((ListMailboxV::Token(s.subrange(i, e)), e)),
        None => match spec_string(s, i) {
            Some((v, j)) => Some((ListMailboxV::String(v), j)),
            None => None,
        },
    }
}

/// The rule `list-mailbox`.
pub struct ListMailboxRule;

impl Rule for ListMailboxRule {
    type Out = ListMailbox;

    open spec fn spec_read(&self, s: Seq<u8>, i: int) -> Option<(ListMailboxV, int)> {
        spec_list_mailbox(s, i)
    }

    fn read(&self, s: &[u8], i: usize) -> (r: Option<(ListMailbox, usize)>) {
        match token(s, i, ByteClass::List) {
            Some(e) => {
                proof {
                    crate::chars::lemma_scan_end(s@, i as int, ByteClass::List);
                }
                Some((ListMailbox::Token(ListCharString::unvalidated(crate::chars::copy_of(&s[i..e]))), e))
            },
            None => match read_string(s, i) {
                Some((v, j)) => Some((ListMailbox::String(v), j)),
                None => None,
            },
        }
    }
}

/// `mbox-or-pat = list-mailbox / patterns`, the parenthesized form tried
/// first.
pub open spec fn spec_list_patterns(s: Seq<u8>, i: int) -> Option<(ListPatternsV, int)> {
    match spec_paren_list(ListMailboxRule, s, i, false) {
        Some((ms, j)) => Some((ListPatternsV::Several(ms), j)),
        None => match spec_list_mailbox(s, i) {
            Some((m, j)) => Some((ListPatternsV::One(m), j)),
            None => None,
        },
    }
}

/// Reads `mbox-or-pat` at `i`.
pub fn read_list_patterns(s: &[u8], i: usize) -> (r: Option<(ListPatterns, usize)>)
    requires
        i <= s@.len(),
    ensures
        read_view(r) == spec_list_patterns(s@, i as int),
        r matches Some((_, j)) ==> i <= j <= s@.len(),
{
    match read_paren_list(&ListMailboxRule, s, i, false) {
        Some((ms, j)) => match Vec1::from_vec_dv(ms) {
            Some(v) => Some((ListPatterns::Several(v), j)),
            None => None,
        },
        None => match ListMailboxRule.read(s, i) {
            Some((m, j)) => Some((ListPatterns::One(m), j)),
            None => None,
        },
    }
}

/// `list-select-opts`: a parenthesized list of options in any order,
/// read only where the combination is one RFC 5258 Section 6 allows.
pub open spec fn spec_list_select_opts(s: Seq<u8>, i: int) -> Option<(Seq<ListSelectOption>, int)> {
    match spec_paren_list(ListSelectOptRule, s, i, true) {
        Some((os, j)) => if spec_valid_combination(os) {
            Some((os, j))
        } else {
            None
        },
        None => None,
    }
}

/// Reads `list-select-opts` at `i`.
pub fn read_list_select_opts(s: &[u8], i: usize) -> (r: Option<(Vec<ListSelectOption>, usize)>)
    requires
        i <= s@.len(),
    ensures
        read_view(r) == spec_list_select_opts(s@, i as int),
        r matches Some((os, j)) ==> i < j <= s@.len() && spec_valid_combination(os@),
{
    match read_paren_list(&ListSelectOptRule, s, i, true) {
        Some((os, j)) => {
            proof {
                assert(os.deep_view() =~= os@);
            }
            if ListSelectOption::valid_combination(os.as_slice()) {
                Some((os, j))
            } else {
                None
            }
        },
        None => None,
    }
}

/// `"STATUS" SP "(" status-att *(SP status-att) ")"`
pub open spec fn spec_status_return(s: Seq<u8>, i: int) -> Option<(ListReturnOptionV, int)> {
    if spec_keyword(s, i, STATUS_SP@) {
        match spec_paren_list(StatusAttRule, s, i + 7, false) {
            Some((items, j)) => Some((ListReturnOptionV::Status(items), j)),
            None => None,
        }
    } else {
        None
    }
}

/// `return-option`: the options in the order they are tried.
pub open spec fn spec_list_return_opt(s: Seq<u8>, i: int) -> Option<(ListReturnOptionV, int)> {
    let r = crate::search::flag(s, i, SUBSCRIBED@, ListReturnOptionV::Subscribed);
    let r = crate::search::alt(r, crate::search::flag(s, i, CHILDREN@, ListReturnOptionV::Children));
    let r = crate::search::alt(r, spec_status_return(s, i));
    crate::search::alt(r, crate::search::flag(s, i, SPECIAL_USE@, ListReturnOptionV::SpecialUse))
}

/// The rule `return-option`.
pub struct ListReturnOptRule;

impl Rule for ListReturnOptRule {
    type Out = ListReturnOption;

    open spec fn spec_read(&self, s: Seq<u8>, i: int) -> Option<(ListReturnOptionV, int)> {
        spec_list_return_opt(s, i)
    }

    fn read(&self, s: &[u8], i: usize) -> (r: Option<(ListReturnOption, usize)>) {
        let k = SUBSCRIBED;
        if keyword(s, i, k.as_slice()) {
            return Some((ListReturnOption::Subscribed, i + k.len()));
        }
        let k = CHILDREN;
        if keyword(s, i, k.as_slice()) {
            return Some((ListReturnOption::Children, i + k.len()));
        }
        let k = STATUS_SP;
        if keyword(s, i, k.as_slice()) {
            if let Some((items, j)) = read_paren_list(&StatusAttRule, s, i + k.len(), false) {
                if let Some(v) = Vec1::from_vec_dv(items) {
                    return Some((ListReturnOption::Status(v), j));
                }
            }
        }
        let k = SPECIAL_USE;
        if keyword(s, i, k.as_slice()) {
            return Some((ListReturnOption::SpecialUse, i + k.len()));
        }
        None
    }
}

/// `list-return-opts = "RETURN" SP "(" [return-option *(SP return-option)] ")"`
pub open spec fn spec_list_return_opts(s: Seq<u8>, i: int) -> Option<(Seq<ListReturnOptionV>, int)> {
    if spec_keyword(s, i, RETURN_SP@) {
        spec_paren_list(ListReturnOptRule, s, i + 7, true)
    } else {
        None
    }
}

/// Reads `list-return-opts` at `i`.
pub fn read_list_return_opts(s: &[u8], i: usize) -> (r: Option<(Vec<ListReturnOption>, usize)>)
    requires
        i <= s@.len(),
    ensures
        read_view(r) == spec_list_return_opts(s@, i as int),
        r matches Some((_, j)) ==> i < j <= s@.len(),
{
    let k = RETURN_SP;
    if keyword(s, i, k.as_slice()) {
        read_paren_list(&ListReturnOptRule, s, i + 7, true)
    } else {
        None
    }
}

/// `mailbox = "INBOX" / astring`: `INBOX` in any case, quoted or not, is
/// the inbox.
pub open spec fn spec_mailbox(s: Seq<u8>, i: int) -> Option<(MailboxV, int)> {
    match spec_astring(s, i) {
        Some((v, j)) => Some((spec_mailbox_of(v), j)),
        None => None,
    }
}

/// The rule `mailbox`.
pub struct MailboxRule;

impl Rule for MailboxRule {
    type Out = Mailbox;

    open spec fn spec_read(&self, s: Seq<u8>, i: int) -> Option<(MailboxV, int)> {
        spec_mailbox(s, i)
    }

    fn read(&self, s: &[u8], i: usize) -> (r: Option<(Mailbox, usize)>) {
        match read_astring(s, i) {
            Some((a, j)) => Some((Mailbox::from_astring(a), j)),
            None => None,
        }
    }
}

/// Reads a `mailbox` at `i`.
pub fn read_mailbox(s: &[u8], i: usize) -> (r: Option<(Mailbox, usize)>)
    requires
        i <= s@.len(),
    ensures
        read_view(r) == spec_mailbox(s@, i as int),
        r matches Some((_, j)) ==> i < j <= s@.len(),
{
    match read_astring(s, i) {
        Some((a, j)) => Some((Mailbox::from_astring(a), j)),
        None => None,
    }
}

/// A word that may be written quoted or bare: where it ends.
pub open spec fn spec_quotable(s: Seq<u8>, i: int, kw: Seq<u8>) -> Option<int> {
    if spec_byte(s, i, DQUOTE) && spec_keyword(s, i + 1, kw) && spec_byte(s, i + 1 + kw.len(), DQUOTE) {
        Some(i + kw.len() + 2)
    } else if spec_keyword(s, i, kw) {
        Some(i + kw.len())
    } else {
        None
    }
}

fn read_quotable(s: &[u8], i: usize, kw: &[u8]) -> (r: Option<usize>)
    requires
        i <= s@.len(),
    ensures
        r matches Some(j) ==> spec_quotable(s@, i as int, kw@) == Some(j as int) && i <= j <= s@.len(),
        r is None ==> spec_quotable(s@, i as int, kw@) is None,
{
    if byte(s, i, DQUOTE) && keyword(s, i + 1, kw) && byte(s, i + 1 + kw.len(), DQUOTE) {
        Some(i + kw.len() + 2)
    } else if keyword(s, i, kw) {
        Some(i + kw.len())
    } else {
        None
    }
}

/// A selection option, quoted or bare.
pub open spec fn spec_quotable_opt(s: Seq<u8>, i: int) -> Option<(ListSelectOption, int)> {
    let quoted = if spec_byte(s, i, DQUOTE) {
        match spec_list_select_opt(s, i + 1) {
            Some((o, j)) => if spec_byte(s, j, DQUOTE) {
                Some((o, j + 1))
            } else {
                None
            },
            None => None,
        }
    } else {
        None
    };
    crate::search::alt(quoted, spec_list_select_opt(s, i))
}

/// The rule for a selection option, quoted or bare.
pub struct QuotableOptRule;

impl Rule for QuotableOptRule {
    type Out = ListSelectOption;

    open spec fn spec_read(&self, s: Seq<u8>, i: int) -> Option<(ListSelectOption, int)> {
        spec_quotable_opt(s, i)
    }

    fn read(&self, s: &[u8], i: usize) -> (r: Option<(ListSelectOption, usize)>) {
        if byte(s, i, DQUOTE) {
            if let Some((o, j)) = ListSelectOptRule.read(s, i + 1) {
                if byte(s, j, DQUOTE) {
                    return Some((o, j + 1));
                }
            }
        }
        ListSelectOptRule.read(s, i)
    }
}

/// `childinfo-extended-item = "CHILDINFO" SP "(" list-select-base-opt-quoted
/// *(SP list-select-base-opt-quoted) ")"` and `oldname-extended-item =
/// "OLDNAME" SP "(" mailbox ")"`, their tags quoted or bare and in any
/// case.
pub open spec fn spec_mbox_list_extended_item(s: Seq<u8>, i: int) -> Option<(ListExtendedItemV, int)> {
    let childinfo = match spec_quotable(s, i, CHILDINFO@) {
        Some(j) => if spec_byte(s, j, SP) {
            match spec_paren_list(QuotableOptRule, s, j + 1, false) {
                Some((os, k)) => Some((ListExtendedItemV::ChildInfo(os), k)),
                None => None,
            }
        } else {
            None
        },
        None => None,
    };
    let oldname = match spec_quotable(s, i, OLDNAME@) {
        Some(j) => if spec_byte(s, j, SP) && spec_byte(s, j + 1, LPAREN) {
            match spec_mailbox(s, j + 2) {
                Some((m, k)) => if spec_byte(s, k, RPAREN) {
                    Some((ListExtendedItemV::OldName(m), k + 1))
                } else {
                    None
                },
                None => None,
            }
        } else {
            None
        },
        None => None,
    };
    crate::search::alt(childinfo, oldname)
}

/// The rule `mbox-list-extended-item`.
pub struct ExtendedItemRule;

impl Rule for ExtendedItemRule {
    type Out = ListExtendedItem;

    open spec fn spec_read(&self, s: Seq<u8>, i: int) -> Option<(ListExtendedItemV, int)> {
        spec_mbox_list_extended_item(s, i)
    }

    fn read(&self, s: &[u8], i: usize) -> (r: Option<(ListExtendedItem, usize)>) {
        let k = CHILDINFO;
        if let Some(j) = read_quotable(s, i, k.as_slice()) {
            if byte(s, j, SP) {
                if let Some((os, e)) = read_paren_list(&QuotableOptRule, s, j + 1, false) {
                    if let Some(v) = Vec1::from_vec_dv(os) {
                        return Some((ListExtendedItem::ChildInfo(v), e));
                    }
                }
            }
        }
        let k = OLDNAME;
        if let Some(j) = read_quotable(s, i, k.as_slice()) {
            if byte(s, j, SP) && byte(s, j + 1, LPAREN) {
                if let Some((m, e)) = read_mailbox(s, j + 2) {
                    if byte(s, e, RPAREN) {
                        return Some((ListExtendedItem::OldName(m), e + 1));
                    }
                }
            }
        }
        None
    }
}

/// `mbox-list-extended = "(" [mbox-list-extended-item *(SP
/// mbox-list-extended-item)] ")"`
pub open spec fn spec_mbox_list_extended(s: Seq<u8>, i: int) -> Option<(Seq<ListExtendedItemV>, int)> {
    spec_paren_list(ExtendedItemRule, s, i, true)
}

/// Reads `mbox-list-extended` at `i`.
pub fn read_mbox_list_extended(s: &[u8], i: usize) -> (r: Option<(Vec<ListExtendedItem>, usize)>)
    requires
        i <= s@.len(),
    ensures
        read_view(r) == spec_mbox_list_extended(s@, i as int),
        r matches Some((_, j)) ==> i < j <= s@.len(),
{
    read_paren_list(&ExtendedItemRule, s, i, true)
}

} // verus!

verus! {

// ---------------------------------------------------------------------
// Writing.

/// How a pattern is written.
pub open spec fn spec_write_list_mailbox(v: ListMailboxV) -> Seq<u8> {
    match v {
        ListMailboxV::Token(b) => b,
        ListMailboxV::String(sv) => spec_write_str(sv),
    }
}

/// Writes patterns.
pub struct ListMailboxWriter;

impl Writer for ListMailboxWriter {
    type In = ListMailbox;

    open spec fn spec_write(&self, v: ListMailboxV) -> Seq<u8> {
        spec_write_list_mailbox(v)
    }

    fn write(&self, out: &mut Vec<u8>, v: &ListMailbox) {
        match v {
            ListMailbox::Token(t) => put(out, t.as_bytes()),
            ListMailbox::String(st) => write_istring(out, st),
        }
    }
}

/// How a mailbox is written: the inbox as `INBOX`, another as its name.
pub open spec fn spec_write_mailbox(m: MailboxV) -> Seq<u8> {
    match m {
        MailboxV::Inbox => INBOX@,
        MailboxV::Other(v) => spec_write_str(v),
    }
}

/// Writes a mailbox.
pub fn write_mailbox(out: &mut Vec<u8>, m: &Mailbox)
    ensures
        final(out)@ == old(out)@ + spec_write_mailbox(m.deep_view()),
{
    match m {
        Mailbox::Inbox => put(out, INBOX.as_slice()),
        Mailbox::Other(o) => write_astring(out, o.inner()),
    }
}

/// Writes mailboxes.
pub struct MailboxWriter;

impl Writer for MailboxWriter {
    type In = Mailbox;

    open spec fn spec_write(&self, v: MailboxV) -> Seq<u8> {
        spec_write_mailbox(v)
    }

    fn write(&self, out: &mut Vec<u8>, v: &Mailbox) {
        write_mailbox(out, v)
    }
}

/// How the patterns of a `LIST` are written.
pub open spec fn spec_write_list_patterns(p: ListPatternsV) -> Seq<u8> {
    match p {
        ListPatternsV::One(m) => spec_write_list_mailbox(m),
        ListPatternsV::Several(ms) => seq![LPAREN] + join(written(ListMailboxWriter, ms), seq![SP]) + seq![RPAREN],
    }
}

/// Writes the patterns of a `LIST`.
pub fn write_list_patterns(out: &mut Vec<u8>, p: &ListPatterns)
    ensures
        final(out)@ == old(out)@ + spec_write_list_patterns(p.deep_view()),
{
    let ghost start = old(out)@;
    match p {
        ListPatterns::One(m) => ListMailboxWriter.write(out, m),
        ListPatterns::Several(ms) => {
            out.push(LPAREN);
            let sp = [SP];
            write_joined(&ListMailboxWriter, out, ms.as_slice_dv(), sp.as_slice());
            out.push(RPAREN);
            assert(sp@ =~= seq![SP]);
            assert(out@ =~= start + spec_write_list_patterns(p.deep_view()));
        },
    }
}

/// Writes selection options.
pub struct ListSelectOptWriter;

impl Writer for ListSelectOptWriter {
    type In = ListSelectOption;

    open spec fn spec_write(&self, v: ListSelectOption) -> Seq<u8> {
        spec_select_option_name(v)
    }

    fn write(&self, out: &mut Vec<u8>, v: &ListSelectOption) {
        write_list_select_opt(out, v)
    }
}

/// How selection options are written: in parentheses, separated by
/// spaces.
pub open spec fn spec_write_list_select_opts(os: Seq<ListSelectOption>) -> Seq<u8> {
    seq![LPAREN] + join(written(ListSelectOptWriter, os), seq![SP]) + seq![RPAREN]
}

/// Writes selection options.
pub fn write_list_select_opts(out: &mut Vec<u8>, os: &[ListSelectOption])
    ensures
        final(out)@ == old(out)@ + spec_write_list_select_opts(os.deep_view()),
{
    let ghost start = old(out)@;
    out.push(LPAREN);
    let sp = [SP];
    write_joined(&ListSelectOptWriter, out, os, sp.as_slice());
    out.push(RPAREN);
    assert(sp@ =~= seq![SP]);
    assert(out@ =~= start + spec_write_list_select_opts(os.deep_view()));
}

/// How a return option is written.
pub open spec fn spec_write_list_return_opt(o: ListReturnOptionV) -> Seq<u8> {
    match o {
        ListReturnOptionV::Subscribed => SUBSCRIBED@,
        ListReturnOptionV::Children => CHILDREN@,
        ListReturnOptionV::Status(items) => STATUS_SP_LPAREN@ + join(written(StatusAttWriter, items), seq![SP]) + seq![RPAREN],
        ListReturnOptionV::SpecialUse => SPECIAL_USE@,
    }
}

/// Writes return options.
pub struct ListReturnOptWriter;

impl Writer for ListReturnOptWriter {
    type In = ListReturnOption;

    open spec fn spec_write(&self, v: ListReturnOptionV) -> Seq<u8> {
        spec_write_list_return_opt(v)
    }

    fn write(&self, out: &mut Vec<u8>, v: &ListReturnOption) {
        let ghost start = old(out)@;
        match v {
            ListReturnOption::Subscribed => put(out, SUBSCRIBED.as_slice()),
            ListReturnOption::Children => put(out, CHILDREN.as_slice()),
            ListReturnOption::Status(items) => {
                put(out, STATUS_SP_LPAREN.as_slice());
                let sp = [SP];
                write_joined(&StatusAttWriter, out, items.as_slice_dv(), sp.as_slice());
                out.push(RPAREN);
                assert(sp@ =~= seq![SP]);
                assert(out@ =~= start + spec_write_list_return_opt(v.deep_view()));
            },
            ListReturnOption::SpecialUse => put(out, SPECIAL_USE.as_slice()),
        }
    }
}

/// How return options are written: `RETURN (`, the options separated by
/// spaces, `)`.
pub open spec fn spec_write_list_return_opts(os: Seq<ListReturnOptionV>) -> Seq<u8> {
    RETURN_SP_LPAREN@ + join(written(ListReturnOptWriter, os), seq![SP]) + seq![RPAREN]
}

/// Writes return options.
pub fn write_list_return_opts(out: &mut Vec<u8>, os: &[ListReturnOption])
    ensures
        final(out)@ == old(out)@ + spec_write_list_return_opts(os.deep_view()),
{
    let ghost start = old(out)@;
    put(out, RETURN_SP_LPAREN.as_slice());
    let sp = [SP];
    write_joined(&ListReturnOptWriter, out, os, sp.as_slice());
    out.push(RPAREN);
    assert(sp@ =~= seq![SP]);
    assert(out@ =~= start + spec_write_list_return_opts(os.deep_view()));
}

/// Writes selection options quoted, as `CHILDINFO` lists them.
pub struct QuotedOptWriter;

impl Writer for QuotedOptWriter {
    type In = ListSelectOption;

    open spec fn spec_write(&self, v: ListSelectOption) -> Seq<u8> {
        seq![DQUOTE] + spec_select_option_name(v) + seq![DQUOTE]
    }

    fn write(&self, out: &mut Vec<u8>, v: &ListSelectOption) {
        let ghost start = old(out)@;
        out.push(DQUOTE);
        write_list_select_opt(out, v);
        out.push(DQUOTE);
        assert(out@ =~= start + (seq![DQUOTE] + spec_select_option_name(*v) + seq![DQUOTE]));
    }
}

/// How an extended item is written, as RFC 5258 writes it: its tag
/// quoted, and the options of `CHILDINFO` quoted too.
pub open spec fn spec_write_extended_item(v: ListExtendedItemV) -> Seq<u8> {
    match v {
        ListExtendedItemV::ChildInfo(os) => QUOTED_CHILDINFO_SP_LPAREN@ + join(written(QuotedOptWriter, os), seq![SP]) + seq![RPAREN],
        ListExtendedItemV::OldName(m) => QUOTED_OLDNAME_SP_LPAREN@ + spec_write_mailbox(m) + seq![RPAREN],
    }
}

/// Writes extended items.
pub struct ExtendedItemWriter;

impl Writer for ExtendedItemWriter {
    type In = ListExtendedItem;

    open spec fn spec_write(&self, v: ListExtendedItemV) -> Seq<u8> {
        spec_write_extended_item(v)
    }

    fn write(&self, out: &mut Vec<u8>, v: &ListExtendedItem) {
        let ghost start = old(out)@;
        match v {
            ListExtendedItem::ChildInfo(os) => {
                put(out, QUOTED_CHILDINFO_SP_LPAREN.as_slice());
                let sp = [SP];
                write_joined(&QuotedOptWriter, out, os.as_slice_dv(), sp.as_slice());
                out.push(RPAREN);
                assert(sp@ =~= seq![SP]);
            },
            ListExtendedItem::OldName(m) => {
                put(out, QUOTED_OLDNAME_SP_LPAREN.as_slice());
                write_mailbox(out, m);
                out.push(RPAREN);
            },
        }
        assert(out@ =~= start + spec_write_extended_item(v.deep_view()));
    }
}

/// How `mbox-list-extended` is written.
pub open spec fn spec_write_mbox_list_extended(items: Seq<ListExtendedItemV>) -> Seq<u8> {
    seq![LPAREN] + join(written(ExtendedItemWriter, items), seq![SP]) + seq![RPAREN]
}

/// Writes `mbox-list-extended`.
pub fn write_mbox_list_extended(out: &mut Vec<u8>, items: &[ListExtendedItem])
    ensures
        final(out)@ == old(out)@ + spec_write_mbox_list_extended(items.deep_view()),
{
    let ghost start = old(out)@;
    out.push(LPAREN);
    let sp = [SP];
    write_joined(&ExtendedItemWriter, out, items, sp.as_slice());
    out.push(RPAREN);
    assert(sp@ =~= seq![SP]);
    assert(out@ =~= start + spec_write_mbox_list_extended(items.deep_view()));
}

} // verus!

verus! {

// ---------------------------------------------------------------------
// What is written reads back.

/// Whether a mailbox's model is one that can be written and read back:
/// the inbox, or another name that is a writable string and not `INBOX`.
pub open spec fn writable_mailbox(m: MailboxV) -> bool {
    match m {
        MailboxV::Inbox => true,
        MailboxV::Other(v) => crate::strings::writable_str(v) && !is_word(v.bytes, INBOX@),
    }
}

/// `INBOX` is the word `INBOX`, and is made of `ASTRING-CHAR`s.
pub proof fn lemma_inbox_word()
    ensures
        is_word(INBOX@, INBOX@),
        INBOX@.len() == 5,
        all_in(INBOX@, ByteClass::AString),
{
    assert(INBOX@[0] == 73u8 && INBOX@[1] == 78u8 && INBOX@[2] == 66u8 && INBOX@[3] == 79u8 && INBOX@[4] == 88u8);
    assert forall|k: int| 0 <= k < INBOX@.len() implies ByteClass::AString.spec_has(#[trigger] INBOX@[k]) by {
        assert(k == 0 || k == 1 || k == 2 || k == 3 || k == 4);
    }
}

/// A mailbox written at `i`, and followed by a byte that cannot continue
/// an atom, reads back as itself.
pub proof fn lemma_mailbox_round_trip(m: MailboxV, s: Seq<u8>, i: int)
    requires
        writable_mailbox(m),
        0 <= i,
        i + spec_write_mailbox(m).len() < s.len(),
        s.subrange(i, i + spec_write_mailbox(m).len()) == spec_write_mailbox(m),
        !crate::chars::is_astring_char(s[i + spec_write_mailbox(m).len()]),
    ensures
        spec_mailbox(s, i) == Some((m, i + spec_write_mailbox(m).len())),
{
    match m {
        MailboxV::Inbox => {
            lemma_inbox_word();
            let v = StrV { kind: StrKind::Atom, bytes: INBOX@ };
            assert(spec_write_str(v) == INBOX@);
            crate::strings::lemma_astring_round_trip(v, s, i);
        },
        MailboxV::Other(v) => {
            crate::strings::lemma_astring_round_trip(v, s, i);
        },
    }
}

} // verus!

verus! {

/// Each name, written at `j` and followed by a space, `)` or `"`, reads
/// back.
pub proof fn lemma_list_select_opt_round_trip(v: ListSelectOption, s: Seq<u8>, j: int)
    requires
        0 <= j,
        j + spec_select_option_name(v).len() < s.len(),
        s.subrange(j, j + spec_select_option_name(v).len()) == spec_select_option_name(v),
        s[j + spec_select_option_name(v).len()] == 32u8 || s[j + spec_select_option_name(v).len()] == 41u8
            || s[j + spec_select_option_name(v).len()] == 34u8,
    ensures
        spec_list_select_opt(s, j) == Some((v, j + spec_select_option_name(v).len())),
{
    let w = spec_select_option_name(v);
    crate::chars::lemma_keyword_at(s, j, w);
    match v {
        ListSelectOption::Subscribed => {
        },
        ListSelectOption::Remote => {
            assert(s[j + 0] == s.subrange(j, j + w.len())[0]);
            crate::chars::lemma_not_keyword(s, j, SUBSCRIBED@, 0);
        },
        ListSelectOption::RecursiveMatch => {
            assert(s[j + 0] == s.subrange(j, j + w.len())[0]);
            crate::chars::lemma_not_keyword(s, j, SUBSCRIBED@, 0);
            assert(s[j + 2] == s.subrange(j, j + w.len())[2]);
            crate::chars::lemma_not_keyword(s, j, REMOTE@, 2);
        },
        ListSelectOption::SpecialUse => {
            assert(s[j + 1] == s.subrange(j, j + w.len())[1]);
            crate::chars::lemma_not_keyword(s, j, SUBSCRIBED@, 1);
            assert(s[j + 0] == s.subrange(j, j + w.len())[0]);
            crate::chars::lemma_not_keyword(s, j, REMOTE@, 0);
            assert(s[j + 0] == s.subrange(j, j + w.len())[0]);
            crate::chars::lemma_not_keyword(s, j, RECURSIVEMATCH@, 0);
        },
    }
}

/// Whether a pattern's model can be written and read back.
pub open spec fn writable_list_mailbox(m: ListMailboxV) -> bool {
    match m {
        ListMailboxV::Token(b) => b.len() > 0 && all_in(b, ByteClass::List),
        ListMailboxV::String(v) => crate::strings::writable_str(v) && v.kind != StrKind::Atom,
    }
}

/// A pattern written at `j`, and followed by a byte that is not a
/// `list-char`, reads back.
pub proof fn lemma_list_mailbox_round_trip(m: ListMailboxV, s: Seq<u8>, j: int)
    requires
        writable_list_mailbox(m),
        0 <= j,
        j + spec_write_list_mailbox(m).len() < s.len(),
        s.subrange(j, j + spec_write_list_mailbox(m).len()) == spec_write_list_mailbox(m),
        !crate::chars::is_list_char(s[j + spec_write_list_mailbox(m).len()]),
    ensures
        spec_list_mailbox(s, j) == Some((m, j + spec_write_list_mailbox(m).len())),
{
    let w = spec_write_list_mailbox(m);
    match m {
        ListMailboxV::Token(b) => {
            let e = j + w.len();
            assert forall|k: int| j <= k < e implies ByteClass::List.spec_has(#[trigger] s[k]) by {
                assert(s[k] == s.subrange(j, e)[k - j]);
            }
            crate::chars::lemma_scan_end_of_run(s, j, e, ByteClass::List);
        },
        ListMailboxV::String(v) => {
            assert(s[j] == s.subrange(j, j + w.len())[0]);
            assert(crate::chars::scan_end(s, j, ByteClass::List) == j);
            crate::strings::lemma_string_round_trip(v, s, j);
        },
    }
}

/// Whether patterns can be written and read back.
pub open spec fn writable_list_patterns(p: ListPatternsV) -> bool {
    match p {
        ListPatternsV::One(m) => writable_list_mailbox(m),
        ListPatternsV::Several(ms) => ms.len() > 0 && forall|k: int| 0 <= k < ms.len() ==> writable_list_mailbox(#[trigger] ms[k]),
    }
}

/// Patterns written at `j`, and followed by a space or CR, read back.
pub proof fn lemma_list_patterns_round_trip(p: ListPatternsV, s: Seq<u8>, j: int)
    requires
        writable_list_patterns(p),
        0 <= j,
        j + spec_write_list_patterns(p).len() < s.len(),
        s.subrange(j, j + spec_write_list_patterns(p).len()) == spec_write_list_patterns(p),
        s[j + spec_write_list_patterns(p).len()] == SP || s[j + spec_write_list_patterns(p).len()] == crate::chars::CR,
    ensures
        spec_list_patterns(s, j) == Some((p, j + spec_write_list_patterns(p).len())),
{
    let w = spec_write_list_patterns(p);
    match p {
        ListPatternsV::One(m) => {
            assert(s[j] == s.subrange(j, j + w.len())[0]);
            lemma_list_mailbox_round_trip(m, s, j);
        },
        ListPatternsV::Several(ms) => {
            let ws = written(ListMailboxWriter, ms);
            let after = |c: u8| c == SP || c == RPAREN;
            assert forall|k: int, q: int| 0 <= k < ms.len() implies #[trigger] crate::rule::reads_at(ListMailboxRule, s, q, ms[k], ws[k], after) by {
                if 0 <= q && q + ws[k].len() < s.len() && s.subrange(q, q + ws[k].len()) == ws[k] && after(s[q + ws[k].len()]) {
                    lemma_list_mailbox_round_trip(ms[k], s, q);
                }
            }
            crate::rule::lemma_paren_list_round_trip(ListMailboxRule, ms, ws, s, j, false, after);
        },
    }
}

/// Selection options written at `j` read back, where their combination
/// is one RFC 5258 allows.
pub proof fn lemma_list_select_opts_round_trip(os: Seq<ListSelectOption>, s: Seq<u8>, j: int)
    requires
        spec_valid_combination(os),
        0 <= j,
        j + spec_write_list_select_opts(os).len() <= s.len(),
        s.subrange(j, j + spec_write_list_select_opts(os).len()) == spec_write_list_select_opts(os),
    ensures
        spec_list_select_opts(s, j) == Some((os, j + spec_write_list_select_opts(os).len())),
{
    let ws = written(ListSelectOptWriter, os);
    let after = |c: u8| c == SP || c == RPAREN;
    assert forall|k: int, q: int| 0 <= k < os.len() implies #[trigger] crate::rule::reads_at(ListSelectOptRule, s, q, os[k], ws[k], after) by {
        if 0 <= q && q + ws[k].len() < s.len() && s.subrange(q, q + ws[k].len()) == ws[k] && after(s[q + ws[k].len()]) {
            lemma_list_select_opt_round_trip(os[k], s, q);
        }
    }
    if os.len() == 0 {
        assert(join(ws, seq![SP]) == Seq::<u8>::empty());
        assert(s[j + 1] == s.subrange(j, j + 2)[1]);
        crate::chars::lemma_not_keyword(s, j + 1, SUBSCRIBED@, 0);
        crate::chars::lemma_not_keyword(s, j + 1, REMOTE@, 0);
        crate::chars::lemma_not_keyword(s, j + 1, RECURSIVEMATCH@, 0);
        crate::chars::lemma_not_keyword(s, j + 1, SPECIAL_USE@, 0);
    }
    crate::rule::lemma_paren_list_round_trip(ListSelectOptRule, os, ws, s, j, true, after);
}

/// A return option written at `j`, and followed by a space or `)`,
/// reads back.
pub proof fn lemma_list_return_opt_round_trip(o: ListReturnOptionV, s: Seq<u8>, j: int)
    requires
        o matches ListReturnOptionV::Status(items) ==> items.len() > 0,
        0 <= j,
        j + spec_write_list_return_opt(o).len() < s.len(),
        s.subrange(j, j + spec_write_list_return_opt(o).len()) == spec_write_list_return_opt(o),
        s[j + spec_write_list_return_opt(o).len()] == SP || s[j + spec_write_list_return_opt(o).len()] == RPAREN,
    ensures
        spec_list_return_opt(s, j) == Some((o, j + spec_write_list_return_opt(o).len())),
{
    let w = spec_write_list_return_opt(o);
    assert(s[j] == s.subrange(j, j + w.len())[0]);
    assert(s[j + 1] == s.subrange(j, j + w.len())[1]);
    match o {
        ListReturnOptionV::Subscribed => {
            crate::chars::lemma_keyword_at(s, j, SUBSCRIBED@);
        },
        ListReturnOptionV::Children => {
            crate::chars::lemma_not_keyword(s, j, SUBSCRIBED@, 0);
            crate::chars::lemma_keyword_at(s, j, CHILDREN@);
        },
        ListReturnOptionV::Status(items) => {
            crate::chars::lemma_not_keyword(s, j, SUBSCRIBED@, 1);
            crate::chars::lemma_not_keyword(s, j, CHILDREN@, 0);
            crate::chars::lemma_part(s, j, w, 0, 7);
            assert(w.subrange(0, 7) =~= STATUS_SP@);
            crate::chars::lemma_keyword_at(s, j, STATUS_SP@);
            let ws = written(StatusAttWriter, items);
            let l = seq![LPAREN] + join(ws, seq![SP]) + seq![RPAREN];
            assert(w =~= STATUS_SP@ + l);
            crate::chars::lemma_part(s, j, w, 7, l.len() as int);
            assert(w.subrange(7, w.len() as int) =~= l);
            let after = |c: u8| c == SP || c == RPAREN;
            assert forall|k: int, q: int| 0 <= k < items.len() implies #[trigger] crate::rule::reads_at(StatusAttRule, s, q, items[k], ws[k], after) by {
                if 0 <= q && q + ws[k].len() < s.len() && s.subrange(q, q + ws[k].len()) == ws[k] && after(s[q + ws[k].len()]) {
                    crate::status::lemma_status_att_round_trip(items[k], s, q);
                }
            }
            crate::rule::lemma_paren_list_round_trip(StatusAttRule, items, ws, s, j + 7, false, after);
        },
        ListReturnOptionV::SpecialUse => {
            crate::chars::lemma_not_keyword(s, j, SUBSCRIBED@, 1);
            crate::chars::lemma_not_keyword(s, j, CHILDREN@, 0);
            crate::chars::lemma_not_keyword(s, j, STATUS_SP@, 1);
            crate::chars::lemma_keyword_at(s, j, SPECIAL_USE@);
        },
    }
}

/// Return options written at `j`, and followed by CR, read back.
pub proof fn lemma_list_return_opts_round_trip(os: Seq<ListReturnOptionV>, s: Seq<u8>, j: int)
    requires
        forall|k: int| 0 <= k < os.len() ==> (#[trigger] os[k] matches ListReturnOptionV::Status(items) ==> items.len() > 0),
        0 <= j,
        j + spec_write_list_return_opts(os).len() <= s.len(),
        s.subrange(j, j + spec_write_list_return_opts(os).len()) == spec_write_list_return_opts(os),
    ensures
        spec_list_return_opts(s, j) == Some((os, j + spec_write_list_return_opts(os).len())),
{
    let w = spec_write_list_return_opts(os);
    let ws = written(ListReturnOptWriter, os);
    let l = seq![LPAREN] + join(ws, seq![SP]) + seq![RPAREN];
    assert(w =~= RETURN_SP@ + l);
    crate::chars::lemma_part(s, j, w, 0, 7);
    assert(w.subrange(0, 7) =~= RETURN_SP@);
    crate::chars::lemma_keyword_at(s, j, RETURN_SP@);
    crate::chars::lemma_part(s, j, w, 7, l.len() as int);
    assert(w.subrange(7, w.len() as int) =~= l);
    let after = |c: u8| c == SP || c == RPAREN;
    assert forall|k: int, q: int| 0 <= k < os.len() implies #[trigger] crate::rule::reads_at(ListReturnOptRule, s, q, os[k], ws[k], after) by {
        if 0 <= q && q + ws[k].len() < s.len() && s.subrange(q, q + ws[k].len()) == ws[k] && after(s[q + ws[k].len()]) {
            lemma_list_return_opt_round_trip(os[k], s, q);
        }
    }
    if os.len() == 0 {
        assert(join(ws, seq![SP]) == Seq::<u8>::empty());
        assert(s[j + 8] == w[8]);
        crate::chars::lemma_not_keyword(s, j + 8, SUBSCRIBED@, 0);
        crate::chars::lemma_not_keyword(s, j + 8, CHILDREN@, 0);
        crate::chars::lemma_not_keyword(s, j + 8, STATUS_SP@, 0);
        crate::chars::lemma_not_keyword(s, j + 8, SPECIAL_USE@, 0);
    }
    crate::rule::lemma_paren_list_round_trip(ListReturnOptRule, os, ws, s, j + 7, true, after);
}

/// A written mailbox does not begin with `(`.
pub proof fn lemma_mailbox_not_paren(m: MailboxV)
    requires
        writable_mailbox(m),
    ensures
        spec_write_mailbox(m).len() > 0,
        spec_write_mailbox(m)[0] != LPAREN,
{
    match m {
        MailboxV::Inbox => {
            lemma_inbox_word();
        },
        MailboxV::Other(v) => {
            match v.kind {
                crate::strings::StrKind::Atom => {
                    assert(crate::chars::ByteClass::AString.spec_has(v.bytes[0]));
                },
                crate::strings::StrKind::Quoted => {},
                crate::strings::StrKind::Literal(_) => {},
            }
        },
    }
}

} // verus!

verus! {

/// A selection option, written quoted at `i` and followed by a space or
/// `)`, reads back.
proof fn lemma_quoted_opt_round_trip(v: ListSelectOption, s: Seq<u8>, i: int)
    requires
        0 <= i,
        i + QuotedOptWriter.spec_write(v).len() < s.len(),
        s.subrange(i, i + QuotedOptWriter.spec_write(v).len()) == QuotedOptWriter.spec_write(v),
        s[i + QuotedOptWriter.spec_write(v).len()] == 32u8 || s[i + QuotedOptWriter.spec_write(v).len()] == 41u8,
    ensures
        spec_quotable_opt(s, i) == Some((v, i + QuotedOptWriter.spec_write(v).len())),
{
    let w = QuotedOptWriter.spec_write(v);
    let n = spec_select_option_name(v);
    assert(s[i] == w[0]);
    crate::chars::lemma_part(s, i, w, 1, n.len() as int);
    assert(w.subrange(1, 1 + n.len() as int) =~= n);
    assert(s[i + 1 + n.len()] == w[1 + n.len() as int]);
    lemma_list_select_opt_round_trip(v, s, i + 1);
}

/// Whether an extended item can be written and read back.
pub open spec fn writable_extended_item(v: ListExtendedItemV) -> bool {
    match v {
        ListExtendedItemV::ChildInfo(os) => os.len() > 0,
        ListExtendedItemV::OldName(m) => writable_mailbox(m),
    }
}

/// An extended item, written at `i` and followed by a space or `)`, reads
/// back.
#[verifier::rlimit(100)]
#[verifier::spinoff_prover]
pub proof fn lemma_extended_item_round_trip(v: ListExtendedItemV, s: Seq<u8>, i: int)
    requires
        writable_extended_item(v),
        0 <= i,
        i + spec_write_extended_item(v).len() < s.len(),
        s.subrange(i, i + spec_write_extended_item(v).len()) == spec_write_extended_item(v),
        s[i + spec_write_extended_item(v).len()] == 32u8 || s[i + spec_write_extended_item(v).len()] == 41u8,
    ensures
        spec_mbox_list_extended_item(s, i) == Some((v, i + spec_write_extended_item(v).len())),
{
    let w = spec_write_extended_item(v);
    let e = i + w.len();
    assert forall|k: int| 0 <= k < w.len() implies s[i + k] == #[trigger] w[k] by {
        assert(s[i + k] == s.subrange(i, e)[k]);
    }
    assert(s[i + 0] == w[0] && s[i + 1] == w[1]);
    match v {
        ListExtendedItemV::ChildInfo(os) => {
            let ws = written(QuotedOptWriter, os);
            let jw = join(ws, seq![SP]);
            crate::chars::lemma_part(s, i, w, 1, 9);
            assert(w.subrange(1, 10) =~= CHILDINFO@);
            crate::chars::lemma_keyword_at(s, i + 1, CHILDINFO@);
            assert(s[i + 10] == w[10] && s[i + 11] == w[11]);
            crate::chars::lemma_part(s, i, w, 12, jw.len() + 2int);
            assert(w.subrange(12, 12 + jw.len() + 2int) =~= seq![LPAREN] + jw + seq![RPAREN]);
            let after = |b: u8| b == SP || b == RPAREN;
            assert forall|k: int, q: int| 0 <= k < os.len() implies #[trigger] crate::rule::reads_at(QuotableOptRule, s, q, os[k], ws[k], after) by {
                assert(ws[k] == QuotedOptWriter.spec_write(os[k]));
                if 0 <= q && q + ws[k].len() < s.len() && s.subrange(q, q + ws[k].len()) == ws[k] && after(s[q + ws[k].len()]) {
                    lemma_quoted_opt_round_trip(os[k], s, q);
                }
            }
            crate::rule::lemma_paren_list_round_trip(QuotableOptRule, os, ws, s, i + 12, false, after);
        },
        ListExtendedItemV::OldName(m) => {
            let wm = spec_write_mailbox(m);
            crate::chars::lemma_not_keyword(s, i + 1, CHILDINFO@, 0);
            crate::chars::lemma_not_keyword(s, i, CHILDINFO@, 0);
            crate::chars::lemma_part(s, i, w, 1, 7);
            assert(w.subrange(1, 8) =~= OLDNAME@);
            crate::chars::lemma_keyword_at(s, i + 1, OLDNAME@);
            assert(s[i + 8] == w[8] && s[i + 9] == w[9] && s[i + 10] == w[10]);
            crate::chars::lemma_part(s, i, w, 11, wm.len() as int);
            assert(w.subrange(11, 11 + wm.len() as int) =~= wm);
            assert(s[i + 11 + wm.len()] == w[11 + wm.len() as int]);
            lemma_mailbox_round_trip(m, s, i + 11);
        },
    }
}

/// Whether extended items can be written and read back.
pub open spec fn writable_extended_items(items: Seq<ListExtendedItemV>) -> bool {
    forall|k: int| 0 <= k < items.len() ==> writable_extended_item(#[trigger] items[k])
}

/// `mbox-list-extended`, written at `i`, reads back.
pub proof fn lemma_mbox_list_extended_round_trip(items: Seq<ListExtendedItemV>, s: Seq<u8>, i: int)
    requires
        writable_extended_items(items),
        0 <= i,
        i + spec_write_mbox_list_extended(items).len() <= s.len(),
        s.subrange(i, i + spec_write_mbox_list_extended(items).len()) == spec_write_mbox_list_extended(items),
    ensures
        spec_mbox_list_extended(s, i) == Some((items, i + spec_write_mbox_list_extended(items).len())),
{
    let ws = written(ExtendedItemWriter, items);
    let w = spec_write_mbox_list_extended(items);
    let after = |b: u8| b == SP || b == RPAREN;
    assert forall|k: int, q: int| 0 <= k < items.len() implies #[trigger] crate::rule::reads_at(ExtendedItemRule, s, q, items[k], ws[k], after) by {
        assert(ws[k] == spec_write_extended_item(items[k]));
        if 0 <= q && q + ws[k].len() < s.len() && s.subrange(q, q + ws[k].len()) == ws[k] && after(s[q + ws[k].len()]) {
            lemma_extended_item_round_trip(items[k], s, q);
        }
    }
    if items.len() == 0 {
        assert(join(ws, seq![SP]) == Seq::<u8>::empty());
        assert(s[i + 1] == w[1]);
        crate::chars::lemma_not_keyword(s, i + 1, CHILDINFO@, 0);
        crate::chars::lemma_not_keyword(s, i + 1, OLDNAME@, 0);
    }
    crate::rule::lemma_paren_list_round_trip(ExtendedItemRule, items, ws, s, i, true, after);
}

} // verus!

verus! {

// ---------------------------------------------------------------------
// What the return options `SUBSCRIBED` and `SPECIAL-USE` stand for.

/// The return option `SUBSCRIBED` is written as the bytes `SUBSCRIBED`,
/// and `SPECIAL-USE` as `SPECIAL-USE`.
pub proof fn lemma_subscribed_special_use_written()
    ensures
        spec_write_list_return_opt(ListReturnOptionV::Subscribed) == seq![83u8, 85, 66, 83, 67, 82, 73, 66, 69, 68],
        spec_write_list_return_opt(ListReturnOptionV::SpecialUse) == seq![83u8, 80, 69, 67, 73, 65, 76, 45, 85, 83, 69],
{
    assert(SUBSCRIBED@ =~= seq![83u8, 85, 66, 83, 67, 82, 73, 66, 69, 68]);
    assert(SPECIAL_USE@ =~= seq![83u8, 80, 69, 67, 73, 65, 76, 45, 85, 83, 69]);
}

/// The word `SUBSCRIBED`, in any case, reads as the return option
/// `SUBSCRIBED`, and `SPECIAL-USE` as `SPECIAL-USE`.
pub proof fn lemma_subscribed_special_use_read(s: Seq<u8>, i: int)
    ensures
        spec_keyword(s, i, seq![83u8, 85, 66, 83, 67, 82, 73, 66, 69, 68])
            ==> spec_list_return_opt(s, i) == Some((ListReturnOptionV::Subscribed, i + 10)),
        spec_keyword(s, i, seq![83u8, 80, 69, 67, 73, 65, 76, 45, 85, 83, 69])
            ==> spec_list_return_opt(s, i) == Some((ListReturnOptionV::SpecialUse, i + 11)),
{
    let sub = seq![83u8, 85, 66, 83, 67, 82, 73, 66, 69, 68];
    let spu = seq![83u8, 80, 69, 67, 73, 65, 76, 45, 85, 83, 69];
    assert(SUBSCRIBED@ =~= sub);
    assert(SPECIAL_USE@ =~= spu);
    if spec_keyword(s, i, spu) {
        assert(crate::chars::to_lower(s[i + 0]) == crate::chars::to_lower(spu[0]));
        assert(crate::chars::to_lower(s[i + 1]) == crate::chars::to_lower(spu[1]));
        crate::chars::lemma_not_keyword(s, i, SUBSCRIBED@, 1);
        crate::chars::lemma_not_keyword(s, i, CHILDREN@, 0);
        crate::chars::lemma_not_keyword(s, i, STATUS_SP@, 1);
    }
}

} // verus!

verus! {

// ---------------------------------------------------------------------
// The words each form is written with.

/// How each form of a selection option is written, its words spelled out byte by byte.
pub proof fn lemma_select_option_name_spelled()
    ensures
        spec_select_option_name(ListSelectOption::Subscribed) == seq![83u8, 85, 66, 83, 67, 82, 73, 66, 69, 68],
        spec_select_option_name(ListSelectOption::Remote) == seq![82u8, 69, 77, 79, 84, 69],
        spec_select_option_name(ListSelectOption::RecursiveMatch) == seq![82u8, 69, 67, 85, 82, 83, 73, 86, 69, 77, 65, 84, 67, 72],
        spec_select_option_name(ListSelectOption::SpecialUse) == seq![83u8, 80, 69, 67, 73, 65, 76, 45, 85, 83, 69],
{
    assert(RECURSIVEMATCH@ =~= seq![82u8, 69, 67, 85, 82, 83, 73, 86, 69, 77, 65, 84, 67, 72]);
    assert(REMOTE@ =~= seq![82u8, 69, 77, 79, 84, 69]);
    assert(SPECIAL_USE@ =~= seq![83u8, 80, 69, 67, 73, 65, 76, 45, 85, 83, 69]);
    assert(SUBSCRIBED@ =~= seq![83u8, 85, 66, 83, 67, 82, 73, 66, 69, 68]);
}

/// How each form of a return option of `LIST` is written, its words spelled out byte by byte.
pub proof fn lemma_list_return_opt_written()
    ensures
        spec_write_list_return_opt(ListReturnOptionV::Subscribed) == seq![83u8, 85, 66, 83, 67, 82, 73, 66, 69, 68],
        spec_write_list_return_opt(ListReturnOptionV::Children) == seq![67u8, 72, 73, 76, 68, 82, 69, 78],
        forall|v: ListReturnOptionV| #![trigger spec_write_list_return_opt(v)] v matches ListReturnOptionV::Status(items) ==> spec_write_list_return_opt(v) == seq![83u8, 84, 65, 84, 85, 83, 32, 40] + join(written(StatusAttWriter, items), seq![SP]) + seq![RPAREN],
        spec_write_list_return_opt(ListReturnOptionV::SpecialUse) == seq![83u8, 80, 69, 67, 73, 65, 76, 45, 85, 83, 69],
{
    assert(CHILDREN@ =~= seq![67u8, 72, 73, 76, 68, 82, 69, 78]);
    assert(SPECIAL_USE@ =~= seq![83u8, 80, 69, 67, 73, 65, 76, 45, 85, 83, 69]);
    assert(STATUS_SP_LPAREN@ =~= seq![83u8, 84, 65, 84, 85, 83, 32, 40]);
    assert(SUBSCRIBED@ =~= seq![83u8, 85, 66, 83, 67, 82, 73, 66, 69, 68]);
}

/// How each form of an extended item of `LIST` is written, its words spelled out byte by byte.
pub proof fn lemma_extended_item_written()
    ensures
        forall|v: ListExtendedItemV| #![trigger spec_write_extended_item(v)] v matches ListExtendedItemV::ChildInfo(os) ==> spec_write_extended_item(v) == seq![34u8, 67, 72, 73, 76, 68, 73, 78, 70, 79, 34, 32, 40] + join(written(QuotedOptWriter, os), seq![SP]) + seq![RPAREN],
        forall|v: ListExtendedItemV| #![trigger spec_write_extended_item(v)] v matches ListExtendedItemV::OldName(m) ==> spec_write_extended_item(v) == seq![34u8, 79, 76, 68, 78, 65, 77, 69, 34, 32, 40] + spec_write_mailbox(m) + seq![RPAREN],
{
    assert(QUOTED_CHILDINFO_SP_LPAREN@ =~= seq![34u8, 67, 72, 73, 76, 68, 73, 78, 70, 79, 34, 32, 40]);
    assert(QUOTED_OLDNAME_SP_LPAREN@ =~= seq![34u8, 79, 76, 68, 78, 65, 77, 69, 34, 32, 40]);
}

/// How each form of a special use is written, its words spelled out byte by byte.
pub proof fn lemma_use_name_spelled()
    ensures
        spec_use_name(MailboxUseV::All) == seq![65u8, 108, 108],
        spec_use_name(MailboxUseV::Archive) == seq![65u8, 114, 99, 104, 105, 118, 101],
        spec_use_name(MailboxUseV::Drafts) == seq![68u8, 114, 97, 102, 116, 115],
        spec_use_name(MailboxUseV::Flagged) == seq![70u8, 108, 97, 103, 103, 101, 100],
        spec_use_name(MailboxUseV::Junk) == seq![74u8, 117, 110, 107],
        spec_use_name(MailboxUseV::Sent) == seq![83u8, 101, 110, 116],
        spec_use_name(MailboxUseV::Trash) == seq![84u8, 114, 97, 115, 104],
{
    assert(USE_ALL@ =~= seq![65u8, 108, 108]);
    assert(USE_ARCHIVE@ =~= seq![65u8, 114, 99, 104, 105, 118, 101]);
    assert(USE_DRAFTS@ =~= seq![68u8, 114, 97, 102, 116, 115]);
    assert(USE_FLAGGED@ =~= seq![70u8, 108, 97, 103, 103, 101, 100]);
    assert(USE_JUNK@ =~= seq![74u8, 117, 110, 107]);
    assert(USE_SENT@ =~= seq![83u8, 101, 110, 116]);
    assert(USE_TRASH@ =~= seq![84u8, 114, 97, 115, 104]);
}

} // verus!
