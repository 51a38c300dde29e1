//! SEARCH (RFC 3501 Section 6.4.4, RFC 4731, RFC 5267, RFC 5182): the
//! keys a search is made of, what a search is asked to return, and the
//! `ESEARCH` response.

use vstd::prelude::*;

use crate::chars::{byte, keyword, put, spec_byte, spec_keyword, LPAREN, RPAREN, SP};
use crate::date::{read_date, spec_date, spec_write_date, write_date, NaiveDate};
use crate::num::{decimal, read_number, spec_number, write_number, NzNumber};
use crate::objectid::{read_objectid, spec_objectid, ObjectId};
use crate::rule::{join, read_view};
use crate::sequence::{
    read_sequence_set_or_saved, spec_sequence_set_or_saved, spec_write_sequence_set_or_saved,
    write_sequence_set_or_saved, SequenceSet, SequenceSetOrSaved, SequenceV,
};
use crate::strings::{
    read_astring, read_atom, spec_astring, spec_atom, spec_write_str, write_astring, AString, Atom, StrV,
};
use crate::vec1::Vec1;

verus! {

/// A search key.
#[derive(Debug, PartialEq, Eq, Hash)]
pub enum SearchKey {
    /// Several keys that must all hold: `"(" search-key *(SP search-key) ")"`.
    And(Vec1<SearchKey>),
    /// Messages with these sequence numbers.
    SequenceSet(SequenceSetOrSaved),
    All,
    Answered,
    Bcc(AString),
    Before(NaiveDate),
    Body(AString),
    Cc(AString),
    Deleted,
    Draft,
    Flagged,
    From(AString),
    /// A header field's name and what its text must contain.
    Header(AString, AString),
    Keyword(Atom),
    Larger(u32),
    New,
    Not(Box<SearchKey>),
    Old,
    On(NaiveDate),
    Or(Box<SearchKey>, Box<SearchKey>),
    Recent,
    Seen,
    SentBefore(NaiveDate),
    SentOn(NaiveDate),
    SentSince(NaiveDate),
    Since(NaiveDate),
    Smaller(u32),
    Subject(AString),
    Text(AString),
    To(AString),
    /// Messages with these UIDs.
    Uid(SequenceSetOrSaved),
    Unanswered,
    Undeleted,
    Undraft,
    Unflagged,
    Unkeyword(Atom),
    Unseen,
    /// The message with this identifier (RFC 8474 Section 7).
    EmailId(ObjectId),
    /// The messages of the thread with this identifier (RFC 8474 Section 7).
    ThreadId(ObjectId),
}

/// The model of a [`SearchKey`].
pub enum SearchKeyV {
    And(Seq<SearchKeyV>),
    SequenceSet(Option<Seq<SequenceV>>),
    All,
    Answered,
    Bcc(StrV),
    Before((u16, u8, u8)),
    Body(StrV),
    Cc(StrV),
    Deleted,
    Draft,
    Flagged,
    From(StrV),
    Header(StrV, StrV),
    Keyword(Seq<u8>),
    Larger(u32),
    New,
    Not(Box<SearchKeyV>),
    Old,
    On((u16, u8, u8)),
    Or(Box<SearchKeyV>, Box<SearchKeyV>),
    Recent,
    Seen,
    SentBefore((u16, u8, u8)),
    SentOn((u16, u8, u8)),
    SentSince((u16, u8, u8)),
    Since((u16, u8, u8)),
    Smaller(u32),
    Subject(StrV),
    Text(StrV),
    To(StrV),
    Uid(Option<Seq<SequenceV>>),
    Unanswered,
    Undeleted,
    Undraft,
    Unflagged,
    Unkeyword(Seq<u8>),
    Unseen,
    EmailId(Seq<u8>),
    ThreadId(Seq<u8>),
}

/// The model of a search key.
pub open spec fn key_view(k: SearchKey) -> SearchKeyV
    decreases k,
{
    match k {
        SearchKey::And(ks) => SearchKeyV::And(Seq::new(ks.items().len(), |i: int| {
            proof {
                crate::vec1::lemma_items_decrease(ks);
            }
            if 0 <= i < ks.items().len() {
                key_view(ks.items()[i])
            } else {
                SearchKeyV::All
            }
        })),
        SearchKey::Not(a) => SearchKeyV::Not(Box::new(key_view(*a))),
        SearchKey::Or(a, b) => SearchKeyV::Or(Box::new(key_view(*a)), Box::new(key_view(*b))),
        SearchKey::SequenceSet(s) => SearchKeyV::SequenceSet(s.deep_view()),
        SearchKey::All => SearchKeyV::All,
        SearchKey::Answered => SearchKeyV::Answered,
        SearchKey::Bcc(a) => SearchKeyV::Bcc(a.deep_view()),
        SearchKey::Before(d) => SearchKeyV::Before(d.deep_view()),
        SearchKey::Body(a) => SearchKeyV::Body(a.deep_view()),
        SearchKey::Cc(a) => SearchKeyV::Cc(a.deep_view()),
        SearchKey::Deleted => SearchKeyV::Deleted,
        SearchKey::Draft => SearchKeyV::Draft,
        SearchKey::Flagged => SearchKeyV::Flagged,
        SearchKey::From(a) => SearchKeyV::From(a.deep_view()),
        SearchKey::Header(a, b) => SearchKeyV::Header(a.deep_view(), b.deep_view()),
        SearchKey::Keyword(a) => SearchKeyV::Keyword(a.deep_view()),
        SearchKey::Larger(n) => SearchKeyV::Larger(n),
        SearchKey::New => SearchKeyV::New,
        SearchKey::Old => SearchKeyV::Old,
        SearchKey::On(d) => SearchKeyV::On(d.deep_view()),
        SearchKey::Recent => SearchKeyV::Recent,
        SearchKey::Seen => SearchKeyV::Seen,
        SearchKey::SentBefore(d) => SearchKeyV::SentBefore(d.deep_view()),
        SearchKey::SentOn(d) => SearchKeyV::SentOn(d.deep_view()),
        SearchKey::SentSince(d) => SearchKeyV::SentSince(d.deep_view()),
        SearchKey::Since(d) => SearchKeyV::Since(d.deep_view()),
        SearchKey::Smaller(n) => SearchKeyV::Smaller(n),
        SearchKey::Subject(a) => SearchKeyV::Subject(a.deep_view()),
        SearchKey::Text(a) => SearchKeyV::Text(a.deep_view()),
        SearchKey::To(a) => SearchKeyV::To(a.deep_view()),
        SearchKey::Uid(s) => SearchKeyV::Uid(s.deep_view()),
        SearchKey::Unanswered => SearchKeyV::Unanswered,
        SearchKey::Undeleted => SearchKeyV::Undeleted,
        SearchKey::Undraft => SearchKeyV::Undraft,
        SearchKey::Unflagged => SearchKeyV::Unflagged,
        SearchKey::Unkeyword(a) => SearchKeyV::Unkeyword(a.deep_view()),
        SearchKey::Unseen => SearchKeyV::Unseen,
        SearchKey::EmailId(o) => SearchKeyV::EmailId(o.deep_view()),
        SearchKey::ThreadId(o) => SearchKeyV::ThreadId(o.deep_view()),
    }
}

impl DeepView for SearchKey {
    type V = SearchKeyV;

    open spec fn deep_view(&self) -> SearchKeyV {
        key_view(*self)
    }
}

impl SearchKey {
    /// Messages with these UIDs.
    pub fn uid(sequence_set: SequenceSet) -> (r: SearchKey)
        ensures
            r.deep_view() == SearchKeyV::Uid(Some(sequence_set.deep_view())),
    {
        SearchKey::Uid(SequenceSetOrSaved::Sequences(sequence_set))
    }
}

/// `ALL`
pub const ALL: [u8; 3] = [65, 76, 76];
/// `ANSWERED`
pub const ANSWERED: [u8; 8] = [65, 78, 83, 87, 69, 82, 69, 68];
/// `BCC `
pub const BCC_SP: [u8; 4] = [66, 67, 67, 32];
/// `BEFORE `
pub const BEFORE_SP: [u8; 7] = [66, 69, 70, 79, 82, 69, 32];
/// `BODY `
pub const BODY_SP: [u8; 5] = [66, 79, 68, 89, 32];
/// `CC `
pub const CC_SP: [u8; 3] = [67, 67, 32];
/// `DELETED`
pub const DELETED: [u8; 7] = [68, 69, 76, 69, 84, 69, 68];
/// `FLAGGED`
pub const FLAGGED: [u8; 7] = [70, 76, 65, 71, 71, 69, 68];
/// `FROM `
pub const FROM_SP: [u8; 5] = [70, 82, 79, 77, 32];
/// `KEYWORD `
pub const KEYWORD_SP: [u8; 8] = [75, 69, 89, 87, 79, 82, 68, 32];
/// `NEW`
pub const NEW: [u8; 3] = [78, 69, 87];
/// `OLD`
pub const OLD: [u8; 3] = [79, 76, 68];
/// `ON `
pub const ON_SP: [u8; 3] = [79, 78, 32];
/// `RECENT`
pub const RECENT: [u8; 6] = [82, 69, 67, 69, 78, 84];
/// `SEEN`
pub const SEEN: [u8; 4] = [83, 69, 69, 78];
/// `SINCE `
pub const SINCE_SP: [u8; 6] = [83, 73, 78, 67, 69, 32];
/// `SUBJECT `
pub const SUBJECT_SP: [u8; 8] = [83, 85, 66, 74, 69, 67, 84, 32];
/// `TEXT `
pub const TEXT_SP: [u8; 5] = [84, 69, 88, 84, 32];
/// `TO `
pub const TO_SP: [u8; 3] = [84, 79, 32];
/// `EMAILID `
pub const EMAILID_SP: [u8; 8] = [69, 77, 65, 73, 76, 73, 68, 32];
/// `THREADID `
pub const THREADID_SP: [u8; 9] = [84, 72, 82, 69, 65, 68, 73, 68, 32];
/// `UNANSWERED`
pub const UNANSWERED: [u8; 10] = [85, 78, 65, 78, 83, 87, 69, 82, 69, 68];
/// `UNDELETED`
pub const UNDELETED: [u8; 9] = [85, 78, 68, 69, 76, 69, 84, 69, 68];
/// `UNFLAGGED`
pub const UNFLAGGED: [u8; 9] = [85, 78, 70, 76, 65, 71, 71, 69, 68];
/// `UNKEYWORD `
pub const UNKEYWORD_SP: [u8; 10] = [85, 78, 75, 69, 89, 87, 79, 82, 68, 32];
/// `UNSEEN`
pub const UNSEEN: [u8; 6] = [85, 78, 83, 69, 69, 78];
/// `DRAFT`
pub const DRAFT: [u8; 5] = [68, 82, 65, 70, 84];
/// `HEADER `
pub const HEADER_SP: [u8; 7] = [72, 69, 65, 68, 69, 82, 32];
/// `LARGER `
pub const LARGER_SP: [u8; 7] = [76, 65, 82, 71, 69, 82, 32];
/// `NOT `
pub const NOT_SP: [u8; 4] = [78, 79, 84, 32];
/// `OR `
pub const OR_SP: [u8; 3] = [79, 82, 32];
/// `SENTBEFORE `
pub const SENTBEFORE_SP: [u8; 11] = [83, 69, 78, 84, 66, 69, 70, 79, 82, 69, 32];
/// `SENTON `
pub const SENTON_SP: [u8; 7] = [83, 69, 78, 84, 79, 78, 32];
/// `SENTSINCE `
pub const SENTSINCE_SP: [u8; 10] = [83, 69, 78, 84, 83, 73, 78, 67, 69, 32];
/// `SMALLER `
pub const SMALLER_SP: [u8; 8] = [83, 77, 65, 76, 76, 69, 82, 32];
/// `UID `
pub const UID_SP: [u8; 4] = [85, 73, 68, 32];
/// `UNDRAFT`
pub const UNDRAFT: [u8; 7] = [85, 78, 68, 82, 65, 70, 84];

/// The first of two readings that succeeds: the ordered choice of a
/// grammar.
pub open spec fn alt<A>(a: Option<(A, int)>, b: Option<(A, int)>) -> Option<(A, int)> {
    if a is Some {
        a
    } else {
        b
    }
}

/// A reading with its value mapped.
pub open spec fn map_value<A, B>(a: Option<(A, int)>, f: spec_fn(A) -> B) -> Option<(B, int)> {
    match a {
        Some((v, j)) => Some((f(v), j)),
        None => None,
    }
}

/// A keyword followed by what `f` reads after it.
pub open spec fn after_keyword<A>(s: Seq<u8>, i: int, kw: Seq<u8>, f: spec_fn(int) -> Option<(A, int)>) -> Option<(A, int)> {
    if spec_keyword(s, i, kw) {
        f(i + kw.len())
    } else {
        None
    }
}

/// A keyword that stands for a value by itself.
pub open spec fn flag<A>(s: Seq<u8>, i: int, kw: Seq<u8>, v: A) -> Option<(A, int)> {
    if spec_keyword(s, i, kw) {
        Some((v, i + kw.len()))
    } else {
        None
    }
}

/// `"HEADER" SP header-fld-name SP astring`, where `header-fld-name = astring`.
pub open spec fn spec_header_key(s: Seq<u8>, i: int) -> Option<(SearchKeyV, int)> {
    if spec_keyword(s, i, HEADER_SP@) {
        match spec_astring(s, i + 7) {
            Some((a, j)) => if spec_byte(s, j, SP) {
                match spec_astring(s, j + 1) {
                    Some((b, k)) => Some((SearchKeyV::Header(a, b), k)),
                    None => None,
                }
            } else {
                None
            },
            None => None,
        }
    } else {
        None
    }
}

fn read_header_key(s: &[u8], i: usize) -> (r: Option<(AString, AString, usize)>)
    requires
        i <= s@.len(),
    ensures
        r matches Some((a, b, k)) ==> spec_header_key(s@, i as int) == Some((SearchKeyV::Header(a.deep_view(), b.deep_view()), k as int)) && i < k <= s@.len(),
        r is None ==> spec_header_key(s@, i as int) is None,
{
    let header_sp = HEADER_SP;
    if !keyword(s, i, header_sp.as_slice()) {
        return None;
    }
    match read_astring(s, i + 7) {
        Some((a, j)) => if byte(s, j, SP) {
            match read_astring(s, j + 1) {
                Some((b, k)) => Some((a, b, k)),
                None => None,
            }
        } else {
            None
        },
        None => None,
    }
}

/// The first of the search keys that do not hold other keys, from
/// `ALL` to `NEW`, in the order they are tried.
#[verifier::opaque]
pub open spec fn spec_key_simple_first(s: Seq<u8>, i: int) -> Option<(SearchKeyV, int)> {
    let r = flag(s, i, ALL@, SearchKeyV::All);
    let r = alt(r, flag(s, i, ANSWERED@, SearchKeyV::Answered));
    let r = alt(r, map_value(after_keyword(s, i, BCC_SP@, |j: int| spec_astring(s, j)), |x: StrV| SearchKeyV::Bcc(x)));
    let r = alt(r, map_value(after_keyword(s, i, BEFORE_SP@, |j: int| spec_date(s, j)), |x: (u16, u8, u8)| SearchKeyV::Before(x)));
    let r = alt(r, map_value(after_keyword(s, i, BODY_SP@, |j: int| spec_astring(s, j)), |x: StrV| SearchKeyV::Body(x)));
    let r = alt(r, map_value(after_keyword(s, i, CC_SP@, |j: int| spec_astring(s, j)), |x: StrV| SearchKeyV::Cc(x)));
    let r = alt(r, flag(s, i, DELETED@, SearchKeyV::Deleted));
    let r = alt(r, flag(s, i, FLAGGED@, SearchKeyV::Flagged));
    let r = alt(r, map_value(after_keyword(s, i, FROM_SP@, |j: int| spec_astring(s, j)), |x: StrV| SearchKeyV::From(x)));
    let r = alt(r, map_value(after_keyword(s, i, KEYWORD_SP@, |j: int| spec_atom(s, j)), |x: Seq<u8>| SearchKeyV::Keyword(x)));
    let r = alt(r, flag(s, i, NEW@, SearchKeyV::New));
    r
}

fn read_key_simple_first(s: &[u8], i: usize) -> (r: Option<(SearchKey, usize)>)
    requires
        i <= s@.len(),
    ensures
        read_view(r) == spec_key_simple_first(s@, i as int),
        r matches Some((_, j)) ==> i < j <= s@.len(),
{
    proof {
        reveal(spec_key_simple_first);
    }
    let all = ALL;
    if keyword(s, i, all.as_slice()) {
        return Some((SearchKey::All, i + all.len()));
    }
    let answered = ANSWERED;
    if keyword(s, i, answered.as_slice()) {
        return Some((SearchKey::Answered, i + answered.len()));
    }
    let bcc_sp = BCC_SP;
    if keyword(s, i, bcc_sp.as_slice()) {
        if let Some((x, j)) = read_astring(s, i + bcc_sp.len()) {
            return Some((SearchKey::Bcc(x), j));
        }
    }
    let before_sp = BEFORE_SP;
    if keyword(s, i, before_sp.as_slice()) {
        if let Some((x, j)) = read_date(s, i + before_sp.len()) {
            return Some((SearchKey::Before(x), j));
        }
    }
    let body_sp = BODY_SP;
    if keyword(s, i, body_sp.as_slice()) {
        if let Some((x, j)) = read_astring(s, i + body_sp.len()) {
            return Some((SearchKey::Body(x), j));
        }
    }
    let cc_sp = CC_SP;
    if keyword(s, i, cc_sp.as_slice()) {
        if let Some((x, j)) = read_astring(s, i + cc_sp.len()) {
            return Some((SearchKey::Cc(x), j));
        }
    }
    let deleted = DELETED;
    if keyword(s, i, deleted.as_slice()) {
        return Some((SearchKey::Deleted, i + deleted.len()));
    }
    let flagged = FLAGGED;
    if keyword(s, i, flagged.as_slice()) {
        return Some((SearchKey::Flagged, i + flagged.len()));
    }
    let from_sp = FROM_SP;
    if keyword(s, i, from_sp.as_slice()) {
        if let Some((x, j)) = read_astring(s, i + from_sp.len()) {
            return Some((SearchKey::From(x), j));
        }
    }
    let keyword_sp = KEYWORD_SP;
    if keyword(s, i, keyword_sp.as_slice()) {
        if let Some((x, j)) = read_atom(s, i + keyword_sp.len()) {
            return Some((SearchKey::Keyword(x), j));
        }
    }
    let new = NEW;
    if keyword(s, i, new.as_slice()) {
        return Some((SearchKey::New, i + new.len()));
    }
    None
}

/// The rest of the search keys that do not hold other keys, from `OLD`
/// to `THREADID`, in the order they are tried.
#[verifier::opaque]
pub open spec fn spec_key_simple_rest(s: Seq<u8>, i: int) -> Option<(SearchKeyV, int)> {
    let r = flag(s, i, OLD@, SearchKeyV::Old);
    let r = alt(r, map_value(after_keyword(s, i, ON_SP@, |j: int| spec_date(s, j)), |x: (u16, u8, u8)| SearchKeyV::On(x)));
    let r = alt(r, flag(s, i, RECENT@, SearchKeyV::Recent));
    let r = alt(r, flag(s, i, SEEN@, SearchKeyV::Seen));
    let r = alt(r, map_value(after_keyword(s, i, SINCE_SP@, |j: int| spec_date(s, j)), |x: (u16, u8, u8)| SearchKeyV::Since(x)));
    let r = alt(r, map_value(after_keyword(s, i, SUBJECT_SP@, |j: int| spec_astring(s, j)), |x: StrV| SearchKeyV::Subject(x)));
    let r = alt(r, map_value(after_keyword(s, i, TEXT_SP@, |j: int| spec_astring(s, j)), |x: StrV| SearchKeyV::Text(x)));
    let r = alt(r, map_value(after_keyword(s, i, TO_SP@, |j: int| spec_astring(s, j)), |x: StrV| SearchKeyV::To(x)));
    let r = alt(r, map_value(after_keyword(s, i, EMAILID_SP@, |j: int| spec_objectid(s, j)), |x: Seq<u8>| SearchKeyV::EmailId(x)));
    let r = alt(r, map_value(after_keyword(s, i, THREADID_SP@, |j: int| spec_objectid(s, j)), |x: Seq<u8>| SearchKeyV::ThreadId(x)));
    r
}

fn read_key_simple_rest(s: &[u8], i: usize) -> (r: Option<(SearchKey, usize)>)
    requires
        i <= s@.len(),
    ensures
        read_view(r) == spec_key_simple_rest(s@, i as int),
        r matches Some((_, j)) ==> i < j <= s@.len(),
{
    proof {
        reveal(spec_key_simple_rest);
    }
    let old = OLD;
    if keyword(s, i, old.as_slice()) {
        return Some((SearchKey::Old, i + old.len()));
    }
    let on_sp = ON_SP;
    if keyword(s, i, on_sp.as_slice()) {
        if let Some((x, j)) = read_date(s, i + on_sp.len()) {
            return Some((SearchKey::On(x), j));
        }
    }
    let recent = RECENT;
    if keyword(s, i, recent.as_slice()) {
        return Some((SearchKey::Recent, i + recent.len()));
    }
    let seen = SEEN;
    if keyword(s, i, seen.as_slice()) {
        return Some((SearchKey::Seen, i + seen.len()));
    }
    let since_sp = SINCE_SP;
    if keyword(s, i, since_sp.as_slice()) {
        if let Some((x, j)) = read_date(s, i + since_sp.len()) {
            return Some((SearchKey::Since(x), j));
        }
    }
    let subject_sp = SUBJECT_SP;
    if keyword(s, i, subject_sp.as_slice()) {
        if let Some((x, j)) = read_astring(s, i + subject_sp.len()) {
            return Some((SearchKey::Subject(x), j));
        }
    }
    let text_sp = TEXT_SP;
    if keyword(s, i, text_sp.as_slice()) {
        if let Some((x, j)) = read_astring(s, i + text_sp.len()) {
            return Some((SearchKey::Text(x), j));
        }
    }
    let to_sp = TO_SP;
    if keyword(s, i, to_sp.as_slice()) {
        if let Some((x, j)) = read_astring(s, i + to_sp.len()) {
            return Some((SearchKey::To(x), j));
        }
    }
    let emailid_sp = EMAILID_SP;
    if keyword(s, i, emailid_sp.as_slice()) {
        if let Some((x, j)) = read_objectid(s, i + emailid_sp.len()) {
            return Some((SearchKey::EmailId(x), j));
        }
    }
    let threadid_sp = THREADID_SP;
    if keyword(s, i, threadid_sp.as_slice()) {
        if let Some((x, j)) = read_objectid(s, i + threadid_sp.len()) {
            return Some((SearchKey::ThreadId(x), j));
        }
    }
    None
}

/// The search keys that do not hold other keys, up to `THREADID`, in
/// the order they are tried.
pub open spec fn spec_key_simple(s: Seq<u8>, i: int) -> Option<(SearchKeyV, int)> {
    alt(spec_key_simple_first(s, i), spec_key_simple_rest(s, i))
}

fn read_key_simple(s: &[u8], i: usize) -> (r: Option<(SearchKey, usize)>)
    requires
        i <= s@.len(),
    ensures
        read_view(r) == spec_key_simple(s@, i as int),
        r matches Some((_, j)) ==> i < j <= s@.len(),
{
    match read_key_simple_first(s, i) {
        Some(r) => Some(r),
        None => read_key_simple_rest(s, i),
    }
}

/// The keys tried after the simple ones and before `NOT`.
#[verifier::opaque]
pub open spec fn spec_key_more(s: Seq<u8>, i: int) -> Option<(SearchKeyV, int)> {
    let r = flag(s, i, UNANSWERED@, SearchKeyV::Unanswered);
    let r = alt(r, flag(s, i, UNDELETED@, SearchKeyV::Undeleted));
    let r = alt(r, flag(s, i, UNFLAGGED@, SearchKeyV::Unflagged));
    let r = alt(r, map_value(after_keyword(s, i, UNKEYWORD_SP@, |j: int| spec_atom(s, j)), |x: Seq<u8>| SearchKeyV::Unkeyword(x)));
    let r = alt(r, flag(s, i, UNSEEN@, SearchKeyV::Unseen));
    let r = alt(r, flag(s, i, DRAFT@, SearchKeyV::Draft));
    let r = alt(r, spec_header_key(s, i));
    let r = alt(r, map_value(after_keyword(s, i, LARGER_SP@, |j: int| spec_number(s, j)), |x: u32| SearchKeyV::Larger(x)));
    r
}

fn read_key_more(s: &[u8], i: usize) -> (r: Option<(SearchKey, usize)>)
    requires
        i <= s@.len(),
    ensures
        read_view(r) == spec_key_more(s@, i as int),
        r matches Some((_, j)) ==> i < j <= s@.len(),
{
    proof {
        reveal(spec_key_more);
    }
    let unanswered = UNANSWERED;
    if keyword(s, i, unanswered.as_slice()) {
        return Some((SearchKey::Unanswered, i + unanswered.len()));
    }
    let undeleted = UNDELETED;
    if keyword(s, i, undeleted.as_slice()) {
        return Some((SearchKey::Undeleted, i + undeleted.len()));
    }
    let unflagged = UNFLAGGED;
    if keyword(s, i, unflagged.as_slice()) {
        return Some((SearchKey::Unflagged, i + unflagged.len()));
    }
    let unkeyword_sp = UNKEYWORD_SP;
    if keyword(s, i, unkeyword_sp.as_slice()) {
        if let Some((x, j)) = read_atom(s, i + unkeyword_sp.len()) {
            return Some((SearchKey::Unkeyword(x), j));
        }
    }
    let unseen = UNSEEN;
    if keyword(s, i, unseen.as_slice()) {
        return Some((SearchKey::Unseen, i + unseen.len()));
    }
    let draft = DRAFT;
    if keyword(s, i, draft.as_slice()) {
        return Some((SearchKey::Draft, i + draft.len()));
    }
    let header_sp = HEADER_SP;
    if let Some((a, b, j)) = read_header_key(s, i) {
        return Some((SearchKey::Header(a, b), j));
    }
    let larger_sp = LARGER_SP;
    if keyword(s, i, larger_sp.as_slice()) {
        if let Some((x, j)) = read_number(s, i + larger_sp.len()) {
            return Some((SearchKey::Larger(x), j));
        }
    }
    None
}

/// The keys tried after `OR` and before a bare sequence set.
#[verifier::opaque]
pub open spec fn spec_key_late(s: Seq<u8>, i: int) -> Option<(SearchKeyV, int)> {
    let r = map_value(after_keyword(s, i, SENTBEFORE_SP@, |j: int| spec_date(s, j)), |x: (u16, u8, u8)| SearchKeyV::SentBefore(x));
    let r = alt(r, map_value(after_keyword(s, i, SENTON_SP@, |j: int| spec_date(s, j)), |x: (u16, u8, u8)| SearchKeyV::SentOn(x)));
    let r = alt(r, map_value(after_keyword(s, i, SENTSINCE_SP@, |j: int| spec_date(s, j)), |x: (u16, u8, u8)| SearchKeyV::SentSince(x)));
    let r = alt(r, map_value(after_keyword(s, i, SMALLER_SP@, |j: int| spec_number(s, j)), |x: u32| SearchKeyV::Smaller(x)));
    let r = alt(r, map_value(after_keyword(s, i, UID_SP@, |j: int| spec_sequence_set_or_saved(s, j)), |x: Option<Seq<SequenceV>>| SearchKeyV::Uid(x)));
    let r = alt(r, flag(s, i, UNDRAFT@, SearchKeyV::Undraft));
    r
}

fn read_key_late(s: &[u8], i: usize) -> (r: Option<(SearchKey, usize)>)
    requires
        i <= s@.len(),
    ensures
        read_view(r) == spec_key_late(s@, i as int),
        r matches Some((_, j)) ==> i < j <= s@.len(),
{
    proof {
        reveal(spec_key_late);
    }
    let sentbefore_sp = SENTBEFORE_SP;
    if keyword(s, i, sentbefore_sp.as_slice()) {
        if let Some((x, j)) = read_date(s, i + sentbefore_sp.len()) {
            return Some((SearchKey::SentBefore(x), j));
        }
    }
    let senton_sp = SENTON_SP;
    if keyword(s, i, senton_sp.as_slice()) {
        if let Some((x, j)) = read_date(s, i + senton_sp.len()) {
            return Some((SearchKey::SentOn(x), j));
        }
    }
    let sentsince_sp = SENTSINCE_SP;
    if keyword(s, i, sentsince_sp.as_slice()) {
        if let Some((x, j)) = read_date(s, i + sentsince_sp.len()) {
            return Some((SearchKey::SentSince(x), j));
        }
    }
    let smaller_sp = SMALLER_SP;
    if keyword(s, i, smaller_sp.as_slice()) {
        if let Some((x, j)) = read_number(s, i + smaller_sp.len()) {
            return Some((SearchKey::Smaller(x), j));
        }
    }
    let uid_sp = UID_SP;
    if keyword(s, i, uid_sp.as_slice()) {
        if let Some((x, j)) = read_sequence_set_or_saved(s, i + uid_sp.len()) {
            return Some((SearchKey::Uid(x), j));
        }
    }
    let undraft = UNDRAFT;
    if keyword(s, i, undraft.as_slice()) {
        return Some((SearchKey::Undraft, i + undraft.len()));
    }
    None
}

/// `search-key`, with at most `depth` levels of keys inside keys: a
/// key nested deeper is refused, so that reading cannot exhaust the
/// stack.
pub open spec fn spec_search_key(s: Seq<u8>, i: int, depth: nat) -> Option<(SearchKeyV, int)>
    decreases depth, 2nat, 0nat,
{
    if depth == 0 {
        None
    } else {
        alt(spec_key_simple(s, i), spec_key_nested(s, i, depth))
    }
}

/// The keys from `UNANSWERED` on, in the order they are tried, which
/// include those that hold keys one level down.
pub open spec fn spec_key_nested(s: Seq<u8>, i: int, depth: nat) -> Option<(SearchKeyV, int)>
    decreases depth, 1nat, 0nat,
{
    if depth == 0 {
        None
    } else {
        let inner = (depth - 1) as nat;
        let r = spec_key_more(s, i);
        let r = alt(r, spec_not_key(s, i, inner));
        let r = alt(r, spec_or_key(s, i, inner));
        let r = alt(r, spec_key_late(s, i));
        let r = alt(r, map_value(spec_sequence_set_or_saved(s, i), |x: Option<Seq<SequenceV>>| SearchKeyV::SequenceSet(x)));
        alt(r, spec_and_key(s, i, inner))
    }
}

/// `"NOT" SP search-key`, the inner key at most `depth` deep.
pub open spec fn spec_not_key(s: Seq<u8>, i: int, depth: nat) -> Option<(SearchKeyV, int)>
    decreases depth, 4nat, 0nat,
{
    if spec_keyword(s, i, NOT_SP@) {
        match spec_search_key(s, i + 4, depth) {
            Some((k, j)) => Some((SearchKeyV::Not(Box::new(k)), j)),
            None => None,
        }
    } else {
        None
    }
}

/// `"OR" SP search-key SP search-key`
pub open spec fn spec_or_key(s: Seq<u8>, i: int, depth: nat) -> Option<(SearchKeyV, int)>
    decreases depth, 4nat, 0nat,
{
    if spec_keyword(s, i, OR_SP@) {
        match spec_search_key(s, i + 3, depth) {
            Some((a, j)) => if spec_byte(s, j, SP) {
                match spec_search_key(s, j + 1, depth) {
                    Some((b, k)) => Some((SearchKeyV::Or(Box::new(a), Box::new(b)), k)),
                    None => None,
                }
            } else {
                None
            },
            None => None,
        }
    } else {
        None
    }
}

/// `"(" search-key *(SP search-key) ")"`
pub open spec fn spec_and_key(s: Seq<u8>, i: int, depth: nat) -> Option<(SearchKeyV, int)>
    decreases depth, 4nat, 0nat,
{
    if spec_byte(s, i, LPAREN) {
        match spec_search_key(s, i + 1, depth) {
            Some((k, j)) => if i + 1 <= j <= s.len() {
                let (ks, e) = spec_search_keys_after(s, j, depth);
                if spec_byte(s, e, RPAREN) {
                    Some((SearchKeyV::And(seq![k] + ks), e + 1))
                } else {
                    None
                }
            } else {
                None
            },
            None => None,
        }
    } else {
        None
    }
}

/// `*(SP search-key)`
pub open spec fn spec_search_keys_after(s: Seq<u8>, i: int, depth: nat) -> (Seq<SearchKeyV>, int)
    decreases depth, 3nat, s.len() - i,
{
    if 0 <= i < s.len() && s[i] == SP {
        match spec_search_key(s, i + 1, depth) {
            Some((k, j)) => if i < j <= s.len() {
                let (ks, e) = spec_search_keys_after(s, j, depth);
                (seq![k] + ks, e)
            } else {
                (seq![], i)
            },
            None => (seq![], i),
        }
    } else {
        (seq![], i)
    }
}

/// Reads a `search-key` at `i`, with at most `depth` levels of nesting.
pub fn read_search_key(s: &[u8], i: usize, depth: usize) -> (r: Option<(SearchKey, usize)>)
    requires
        i <= s@.len(),
    ensures
        read_view(r) == spec_search_key(s@, i as int, depth as nat),
        r matches Some((_, j)) ==> i <= j <= s@.len(),
    decreases depth, 2usize,
{
    if depth == 0 {
        return None;
    }
    match read_key_simple(s, i) {
        Some(r) => Some(r),
        None => read_key_nested(s, i, depth),
    }
}

fn read_key_nested(s: &[u8], i: usize, depth: usize) -> (r: Option<(SearchKey, usize)>)
    requires
        i <= s@.len(),
        depth > 0,
    ensures
        read_view(r) == spec_key_nested(s@, i as int, depth as nat),
        r matches Some((_, j)) ==> i <= j <= s@.len(),
    decreases depth, 1usize,
{
    let inner = depth - 1;
    if let Some(r) = read_key_more(s, i) {
        return Some(r);
    }
    if let Some(r) = read_not_key(s, i, inner) {
        return Some(r);
    }
    if let Some(r) = read_or_key(s, i, inner) {
        return Some(r);
    }
    if let Some(r) = read_key_late(s, i) {
        return Some(r);
    }
    if let Some((x, j)) = read_sequence_set_or_saved(s, i) {
        return Some((SearchKey::SequenceSet(x), j));
    }
    read_and_key(s, i, inner)
}

fn read_not_key(s: &[u8], i: usize, depth: usize) -> (r: Option<(SearchKey, usize)>)
    requires
        i <= s@.len(),
    ensures
        read_view(r) == spec_not_key(s@, i as int, depth as nat),
        r matches Some((_, j)) ==> i <= j <= s@.len(),
    decreases depth, 4usize,
{
    let not_sp = NOT_SP;
    if keyword(s, i, not_sp.as_slice()) {
        if let Some((k, j)) = read_search_key(s, i + 4, depth) {
            return Some((SearchKey::Not(Box::new(k)), j));
        }
    }
    None
}

fn read_or_key(s: &[u8], i: usize, depth: usize) -> (r: Option<(SearchKey, usize)>)
    requires
        i <= s@.len(),
    ensures
        read_view(r) == spec_or_key(s@, i as int, depth as nat),
        r matches Some((_, j)) ==> i <= j <= s@.len(),
    decreases depth, 4usize,
{
    let or_sp = OR_SP;
    if keyword(s, i, or_sp.as_slice()) {
        if let Some((a, j)) = read_search_key(s, i + 3, depth) {
            if byte(s, j, SP) {
                if let Some((b, k)) = read_search_key(s, j + 1, depth) {
                    return Some((SearchKey::Or(Box::new(a), Box::new(b)), k));
                }
            }
        }
    }
    None
}

/// The model of an `And` of keys made from the first key and the rest.
proof fn lemma_and_view(v: Vec1<SearchKey>, all: Vec<SearchKey>, kv: SearchKeyV, ksv: Seq<SearchKeyV>)
    requires
        v.items() == all@,
        all.deep_view() == seq![kv] + ksv,
    ensures
        key_view(SearchKey::And(v)) == SearchKeyV::And(seq![kv] + ksv),
{
    let items = v.items();
    let target = seq![kv] + ksv;
    let kvv = key_view(SearchKey::And(v));
    if let SearchKeyV::And(xs) = kvv {
        assert(xs.len() == items.len());
        assert forall|m: int| 0 <= m < xs.len() implies #[trigger] xs[m] == target[m] by {
            assert(xs[m] == key_view(items[m]));
            assert(items[m].deep_view() == all.deep_view()[m]);
        }
        assert(xs =~= target);
    }
}

fn read_and_key(s: &[u8], i: usize, depth: usize) -> (r: Option<(SearchKey, usize)>)
    requires
        i <= s@.len(),
    ensures
        read_view(r) == spec_and_key(s@, i as int, depth as nat),
        r matches Some((_, j)) ==> i <= j <= s@.len(),
    decreases depth, 4usize,
{
    if byte(s, i, LPAREN) {
        if let Some((k, j)) = read_search_key(s, i + 1, depth) {
            let (ks, e) = read_search_keys_after(s, j, depth);
            if byte(s, e, RPAREN) {
                let ghost kv = k.deep_view();
                let ghost ksv = ks.deep_view();
                let mut all: Vec<SearchKey> = Vec::new();
                all.push(k);
                let mut ks = ks;
                all.append(&mut ks);
                proof {
                    assert(all.deep_view() =~= seq![kv] + ksv);
                }
                let ghost all_items = all@;
                let v = Vec1::from_vec(all).unwrap();
                proof {
                    lemma_and_view(v, all, kv, ksv);
                }
                return Some((SearchKey::And(v), e + 1));
            }
        }
    }
    None
}

fn read_search_keys_after(s: &[u8], i: usize, depth: usize) -> (r: (Vec<SearchKey>, usize))
    requires
        i <= s@.len(),
    ensures
        (r.0.deep_view(), r.1 as int) == spec_search_keys_after(s@, i as int, depth as nat),
        i <= r.1 <= s@.len(),
    decreases depth, 3usize,
{
    let mut acc: Vec<SearchKey> = Vec::new();
    let mut k = i;
    loop
        invariant
            i <= k <= s@.len(),
            spec_search_keys_after(s@, i as int, depth as nat) == (
                acc.deep_view() + spec_search_keys_after(s@, k as int, depth as nat).0,
                spec_search_keys_after(s@, k as int, depth as nat).1,
            ),
        decreases s@.len() - k,
    {
        if k < s.len() && s[k] == SP {
            match read_search_key(s, k + 1, depth) {
                Some((v, j)) => {
                    let ghost old_acc = acc.deep_view();
                    let ghost vv = v.deep_view();
                    acc.push(v);
                    proof {
                        assert(acc.deep_view() =~= old_acc.push(vv));
                        let (vs, e) = spec_search_keys_after(s@, j as int, depth as nat);
                        assert(old_acc + (seq![vv] + vs) =~= acc.deep_view() + vs);
                    }
                    k = j;
                },
                None => {
                    proof {
                        assert(acc.deep_view() + seq![] =~= acc.deep_view());
                    }
                    return (acc, k);
                },
            }
        } else {
            proof {
                assert(acc.deep_view() + seq![] =~= acc.deep_view());
            }
            return (acc, k);
        }
    }
}

// ---------------------------------------------------------------------
// Writing search keys.

/// How a search key is written.
pub open spec fn spec_write_search_key(k: SearchKeyV) -> Seq<u8>
    decreases k,
{
    match k {
        SearchKeyV::And(ks) => seq![LPAREN] + join(written_keys(ks), seq![SP]) + seq![RPAREN],
        SearchKeyV::SequenceSet(x) => spec_write_sequence_set_or_saved(x),
        SearchKeyV::All => ALL@,
        SearchKeyV::Answered => ANSWERED@,
        SearchKeyV::Deleted => DELETED@,
        SearchKeyV::Draft => DRAFT@,
        SearchKeyV::Flagged => FLAGGED@,
        SearchKeyV::New => NEW@,
        SearchKeyV::Old => OLD@,
        SearchKeyV::Recent => RECENT@,
        SearchKeyV::Seen => SEEN@,
        SearchKeyV::Unanswered => UNANSWERED@,
        SearchKeyV::Undeleted => UNDELETED@,
        SearchKeyV::Undraft => UNDRAFT@,
        SearchKeyV::Unflagged => UNFLAGGED@,
        SearchKeyV::Unseen => UNSEEN@,
        SearchKeyV::Bcc(a) => BCC_SP@ + spec_write_str(a),
        SearchKeyV::Body(a) => BODY_SP@ + spec_write_str(a),
        SearchKeyV::Cc(a) => CC_SP@ + spec_write_str(a),
        SearchKeyV::From(a) => FROM_SP@ + spec_write_str(a),
        SearchKeyV::Subject(a) => SUBJECT_SP@ + spec_write_str(a),
        SearchKeyV::Text(a) => TEXT_SP@ + spec_write_str(a),
        SearchKeyV::To(a) => TO_SP@ + spec_write_str(a),
        SearchKeyV::Before(d) => BEFORE_SP@ + spec_write_date(d),
        SearchKeyV::On(d) => ON_SP@ + spec_write_date(d),
        SearchKeyV::SentBefore(d) => SENTBEFORE_SP@ + spec_write_date(d),
        SearchKeyV::SentOn(d) => SENTON_SP@ + spec_write_date(d),
        SearchKeyV::SentSince(d) => SENTSINCE_SP@ + spec_write_date(d),
        SearchKeyV::Since(d) => SINCE_SP@ + spec_write_date(d),
        SearchKeyV::Keyword(a) => KEYWORD_SP@ + a,
        SearchKeyV::Unkeyword(a) => UNKEYWORD_SP@ + a,
        SearchKeyV::Larger(n) => LARGER_SP@ + decimal(n as nat),
        SearchKeyV::Smaller(n) => SMALLER_SP@ + decimal(n as nat),
        SearchKeyV::EmailId(o) => EMAILID_SP@ + o,
        SearchKeyV::ThreadId(o) => THREADID_SP@ + o,
        SearchKeyV::Header(a, b) => HEADER_SP@ + spec_write_str(a) + seq![SP] + spec_write_str(b),
        SearchKeyV::Not(k) => NOT_SP@ + spec_write_search_key(*k),
        SearchKeyV::Or(a, b) => OR_SP@ + spec_write_search_key(*a) + seq![SP] + spec_write_search_key(*b),
        SearchKeyV::Uid(x) => UID_SP@ + spec_write_sequence_set_or_saved(x),
    }
}

/// The written keys of a list.
pub open spec fn written_keys(ks: Seq<SearchKeyV>) -> Seq<Seq<u8>>
    decreases ks,
{
    Seq::new(ks.len(), |m: int| {
        if 0 <= m < ks.len() {
            spec_write_search_key(ks[m])
        } else {
            seq![]
        }
    })
}

/// Writes a search key.
pub fn write_search_key(out: &mut Vec<u8>, key: &SearchKey)
    ensures
        final(out)@ == old(out)@ + spec_write_search_key(key.deep_view()),
    decreases key,
{
    let ghost start = old(out)@;
    match key {
        SearchKey::And(ks) => {
            let items = ks.as_slice_dv();
            proof {
                crate::vec1::lemma_items_decrease(*ks);
                assert forall|m: int| 0 <= m < items@.len() implies decreases_to!(*key => #[trigger] ks.items()[m]) by {
                    assert(decreases_to!(*key => *ks));
                    assert(decreases_to!(*ks => ks.items()[m]));
                }
            }
            let ghost kvs = key.deep_view()->And_0;
            let ghost ws = written_keys(kvs);
            proof {
                assert(kvs.len() == items@.len());
                assert forall|m: int| 0 <= m < items@.len() implies #[trigger] kvs[m] == items@[m].deep_view() by {}
            }
            out.push(LPAREN);
            let mut k: usize = 0;
            while k < items.len()
                invariant
                    k <= items@.len(),
                    items@ == ks.items(),
                    kvs.len() == items@.len(),
                    forall|m: int| 0 <= m < items@.len() ==> #[trigger] kvs[m] == items@[m].deep_view(),
                    forall|m: int| 0 <= m < items@.len() ==> decreases_to!(*key => #[trigger] ks.items()[m]),
                    ws == written_keys(kvs),
                    out@ == start + seq![LPAREN] + join(ws.subrange(0, k as int), seq![SP]),
                decreases items@.len() - k,
            {
                if k > 0 {
                    out.push(SP);
                }
                write_search_key(out, &items[k]);
                proof {
                    let w = ws.subrange(0, k + 1);
                    assert(w.drop_last() =~= ws.subrange(0, k as int));
                    if k == 0 {
                        assert(join(ws.subrange(0, 0), seq![SP]) == Seq::<u8>::empty());
                    }
                    assert(out@ =~= start + seq![LPAREN] + join(w, seq![SP]));
                }
                k = k + 1;
            }
            out.push(RPAREN);
            assert(ws.subrange(0, k as int) =~= ws);
            assert(out@ =~= start + spec_write_search_key(key.deep_view()));
        },
        SearchKey::SequenceSet(x) => write_sequence_set_or_saved(out, x),
        SearchKey::All => {
            let w = ALL;
            put(out, w.as_slice());
        },
        SearchKey::Answered => {
            let w = ANSWERED;
            put(out, w.as_slice());
        },
        SearchKey::Deleted => {
            let w = DELETED;
            put(out, w.as_slice());
        },
        SearchKey::Draft => {
            let w = DRAFT;
            put(out, w.as_slice());
        },
        SearchKey::Flagged => {
            let w = FLAGGED;
            put(out, w.as_slice());
        },
        SearchKey::New => {
            let w = NEW;
            put(out, w.as_slice());
        },
        SearchKey::Old => {
            let w = OLD;
            put(out, w.as_slice());
        },
        SearchKey::Recent => {
            let w = RECENT;
            put(out, w.as_slice());
        },
        SearchKey::Seen => {
            let w = SEEN;
            put(out, w.as_slice());
        },
        SearchKey::Unanswered => {
            let w = UNANSWERED;
            put(out, w.as_slice());
        },
        SearchKey::Undeleted => {
            let w = UNDELETED;
            put(out, w.as_slice());
        },
        SearchKey::Undraft => {
            let w = UNDRAFT;
            put(out, w.as_slice());
        },
        SearchKey::Unflagged => {
            let w = UNFLAGGED;
            put(out, w.as_slice());
        },
        SearchKey::Unseen => {
            let w = UNSEEN;
            put(out, w.as_slice());
        },
        SearchKey::Bcc(a) => {
            let w = BCC_SP;
            put(out, w.as_slice());
            write_astring(out, a);
        },
        SearchKey::Body(a) => {
            let w = BODY_SP;
            put(out, w.as_slice());
            write_astring(out, a);
        },
        SearchKey::Cc(a) => {
            let w = CC_SP;
            put(out, w.as_slice());
            write_astring(out, a);
        },
        SearchKey::From(a) => {
            let w = FROM_SP;
            put(out, w.as_slice());
            write_astring(out, a);
        },
        SearchKey::Subject(a) => {
            let w = SUBJECT_SP;
            put(out, w.as_slice());
            write_astring(out, a);
        },
        SearchKey::Text(a) => {
            let w = TEXT_SP;
            put(out, w.as_slice());
            write_astring(out, a);
        },
        SearchKey::To(a) => {
            let w = TO_SP;
            put(out, w.as_slice());
            write_astring(out, a);
        },
        SearchKey::Before(d) => {
            let w = BEFORE_SP;
            put(out, w.as_slice());
            write_date(out, d);
        },
        SearchKey::On(d) => {
            let w = ON_SP;
            put(out, w.as_slice());
            write_date(out, d);
        },
        SearchKey::SentBefore(d) => {
            let w = SENTBEFORE_SP;
            put(out, w.as_slice());
            write_date(out, d);
        },
        SearchKey::SentOn(d) => {
            let w = SENTON_SP;
            put(out, w.as_slice());
            write_date(out, d);
        },
        SearchKey::SentSince(d) => {
            let w = SENTSINCE_SP;
            put(out, w.as_slice());
            write_date(out, d);
        },
        SearchKey::Since(d) => {
            let w = SINCE_SP;
            put(out, w.as_slice());
            write_date(out, d);
        },
        SearchKey::Keyword(a) => {
            let w = KEYWORD_SP;
            put(out, w.as_slice());
            put(out, a.as_bytes());
        },
        SearchKey::Unkeyword(a) => {
            let w = UNKEYWORD_SP;
            put(out, w.as_slice());
            put(out, a.as_bytes());
        },
        SearchKey::Larger(n) => {
            let w = LARGER_SP;
            put(out, w.as_slice());
            write_number(out, *n);
        },
        SearchKey::Smaller(n) => {
            let w = SMALLER_SP;
            put(out, w.as_slice());
            write_number(out, *n);
        },
        SearchKey::EmailId(o) => {
            let w = EMAILID_SP;
            put(out, w.as_slice());
            put(out, o.inner());
        },
        SearchKey::ThreadId(o) => {
            let w = THREADID_SP;
            put(out, w.as_slice());
            put(out, o.inner());
        },
        SearchKey::Header(a, b) => {
            let w = HEADER_SP;
            put(out, w.as_slice());
            write_astring(out, a);
            out.push(SP);
            write_astring(out, b);
            assert(out@ =~= start + spec_write_search_key(key.deep_view()));
        },
        SearchKey::Not(k) => {
            let w = NOT_SP;
            put(out, w.as_slice());
            write_search_key(out, k);
            assert(out@ =~= start + spec_write_search_key(key.deep_view()));
        },
        SearchKey::Or(a, b) => {
            let w = OR_SP;
            put(out, w.as_slice());
            write_search_key(out, a);
            out.push(SP);
            write_search_key(out, b);
            assert(out@ =~= start + spec_write_search_key(key.deep_view()));
        },
        SearchKey::Uid(x) => {
            let w = UID_SP;
            put(out, w.as_slice());
            write_sequence_set_or_saved(out, x);
        },
    }
}

} // verus!

verus! {

/// The rule `search-key`, nested at most `depth` levels.
pub struct SearchKeyRule {
    pub depth: usize,
}

impl crate::rule::Rule for SearchKeyRule {
    type Out = SearchKey;

    open spec fn spec_read(&self, s: Seq<u8>, i: int) -> Option<(SearchKeyV, int)> {
        spec_search_key(s, i, self.depth as nat)
    }

    fn read(&self, s: &[u8], i: usize) -> (r: Option<(SearchKey, usize)>) {
        read_search_key(s, i, self.depth)
    }
}

/// Writes search keys.
pub struct SearchKeyWriter;

impl crate::rule::Writer for SearchKeyWriter {
    type In = SearchKey;

    open spec fn spec_write(&self, v: SearchKeyV) -> Seq<u8> {
        spec_write_search_key(v)
    }

    fn write(&self, out: &mut Vec<u8>, v: &SearchKey) {
        write_search_key(out, v)
    }
}

/// `charset = atom / quoted`
#[derive(Debug, PartialEq, Eq, Hash)]
pub enum Charset {
    Atom(Atom),
    Quoted(crate::strings::Quoted),
}

impl DeepView for Charset {
    type V = StrV;

    open spec fn deep_view(&self) -> StrV {
        match self {
            Charset::Atom(a) => StrV { kind: crate::strings::StrKind::Atom, bytes: a.deep_view() },
            Charset::Quoted(q) => StrV { kind: crate::strings::StrKind::Quoted, bytes: q.deep_view() },
        }
    }
}

/// `charset = atom / quoted`
pub open spec fn spec_charset(s: Seq<u8>, i: int) -> Option<(StrV, int)> {
    match spec_atom(s, i) {
        Some((a, j)) => Some((StrV { kind: crate::strings::StrKind::Atom, bytes: a }, j)),
        None => match crate::strings::spec_quoted(s, i) {
            Some((q, j)) => Some((StrV { kind: crate::strings::StrKind::Quoted, bytes: q }, j)),
            None => None,
        },
    }
}

/// Reads a `charset` at `i`.
pub fn read_charset(s: &[u8], i: usize) -> (r: Option<(Charset, usize)>)
    requires
        i <= s@.len(),
    ensures
        read_view(r) == spec_charset(s@, i as int),
        r matches Some((_, j)) ==> i < j <= s@.len(),
{
    match read_atom(s, i) {
        Some((a, j)) => Some((Charset::Atom(a), j)),
        None => match crate::strings::read_quoted(s, i) {
            Some((q, j)) => Some((Charset::Quoted(q), j)),
            None => None,
        },
    }
}

/// Writes a `charset`.
pub fn write_charset(out: &mut Vec<u8>, c: &Charset)
    ensures
        final(out)@ == old(out)@ + crate::strings::spec_write_str(c.deep_view()),
{
    match c {
        Charset::Atom(a) => put(out, a.as_bytes()),
        Charset::Quoted(q) => crate::strings::write_quoted(out, q),
    }
}

// ---------------------------------------------------------------------
// What the depth of a search key allows.

/// Whether every key inside `k` sits fewer than `d` levels deep: `NOT`,
/// `OR` and parentheses each hold their keys one level down.
pub open spec fn within_depth(k: SearchKeyV, d: nat) -> bool
    decreases d,
{
    if d == 0 {
        false
    } else {
        match k {
            SearchKeyV::Not(a) => within_depth(*a, (d - 1) as nat),
            SearchKeyV::Or(a, b) => within_depth(*a, (d - 1) as nat) && within_depth(*b, (d - 1) as nat),
            SearchKeyV::And(ks) => forall|n: int| 0 <= n < ks.len() ==> within_depth(#[trigger] ks[n], (d - 1) as nat),
            _ => true,
        }
    }
}

/// Where `NOT` or `OR` stands, none of the keys tried after them does.
proof fn lemma_not_or_first(s: Seq<u8>, i: int)
    ensures
        spec_keyword(s, i, NOT_SP@) ==> !spec_keyword(s, i, OR_SP@),
        spec_keyword(s, i, NOT_SP@) || spec_keyword(s, i, OR_SP@) ==> {
            &&& spec_key_late(s, i) is None
            &&& spec_sequence_set_or_saved(s, i) is None
            &&& !spec_byte(s, i, LPAREN)
        },
{
    reveal(spec_key_late);
    if spec_keyword(s, i, NOT_SP@) || spec_keyword(s, i, OR_SP@) {
        assert(0 <= i < s.len());
        let c = crate::chars::to_lower(s[i]);
        if spec_keyword(s, i, NOT_SP@) {
            assert(crate::chars::to_lower(s[i + 0]) == crate::chars::to_lower(NOT_SP@[0]));
        } else {
            assert(crate::chars::to_lower(s[i + 0]) == crate::chars::to_lower(OR_SP@[0]));
        }
        assert(c == 110 || c == 111);
        crate::chars::lemma_not_keyword(s, i, SENTBEFORE_SP@, 0);
        crate::chars::lemma_not_keyword(s, i, SENTON_SP@, 0);
        crate::chars::lemma_not_keyword(s, i, SENTSINCE_SP@, 0);
        crate::chars::lemma_not_keyword(s, i, SMALLER_SP@, 0);
        crate::chars::lemma_not_keyword(s, i, UID_SP@, 0);
        crate::chars::lemma_not_keyword(s, i, UNDRAFT@, 0);
        assert(crate::chars::scan_end(s, i, crate::chars::ByteClass::Digit) == i);
    }
    if spec_keyword(s, i, NOT_SP@) {
        crate::chars::lemma_not_keyword(s, i, OR_SP@, 0);
    }
}

/// The keys read by the four lists of keys that hold no other key hold
/// none.
proof fn lemma_chains_flat(s: Seq<u8>, i: int)
    ensures
        spec_key_simple_first(s, i) matches Some((k, _)) ==> !(k is Not) && !(k is Or) && !(k is And),
        spec_key_simple_rest(s, i) matches Some((k, _)) ==> !(k is Not) && !(k is Or) && !(k is And),
        spec_key_more(s, i) matches Some((k, _)) ==> !(k is Not) && !(k is Or) && !(k is And),
        spec_key_late(s, i) matches Some((k, _)) ==> !(k is Not) && !(k is Or) && !(k is And),
{
    reveal(spec_key_simple_first);
    reveal(spec_key_simple_rest);
    reveal(spec_key_more);
    reveal(spec_key_late);
}

/// A key read at one depth is read the same at any greater depth, and
/// every key in it sits within that depth.
pub proof fn lemma_search_key_depth(s: Seq<u8>, i: int, d: nat, d2: nat)
    requires
        d <= d2,
        spec_search_key(s, i, d) is Some,
    ensures
        spec_search_key(s, i, d2) == spec_search_key(s, i, d),
        within_depth(spec_search_key(s, i, d).unwrap().0, d),
    decreases d, 2nat, 0nat,
{
    lemma_chains_flat(s, i);
    if spec_key_simple(s, i) is None {
        lemma_key_nested_depth(s, i, d, d2);
    }
}

proof fn lemma_key_nested_depth(s: Seq<u8>, i: int, d: nat, d2: nat)
    requires
        d <= d2,
        spec_key_nested(s, i, d) is Some,
    ensures
        spec_key_nested(s, i, d2) == spec_key_nested(s, i, d),
        within_depth(spec_key_nested(s, i, d).unwrap().0, d),
    decreases d, 1nat, 0nat,
{
    let inner = (d - 1) as nat;
    let inner2 = (d2 - 1) as nat;
    lemma_not_or_first(s, i);
    lemma_chains_flat(s, i);
    if spec_key_more(s, i) is Some {
    } else if spec_not_key(s, i, inner) is Some {
        lemma_not_key_depth(s, i, inner, inner2);
    } else {
        if spec_keyword(s, i, NOT_SP@) {
            assert(spec_or_key(s, i, inner) is None);
            assert(spec_and_key(s, i, inner) is None);
        }
        if spec_or_key(s, i, inner) is Some {
            lemma_or_key_depth(s, i, inner, inner2);
        } else {
            if spec_keyword(s, i, OR_SP@) {
                assert(spec_and_key(s, i, inner) is None);
            }
            if spec_key_late(s, i) is None && spec_sequence_set_or_saved(s, i) is None {
                lemma_and_key_depth(s, i, inner, inner2);
            }
        }
    }
}

proof fn lemma_not_key_depth(s: Seq<u8>, i: int, d: nat, d2: nat)
    requires
        d <= d2,
        spec_not_key(s, i, d) is Some,
    ensures
        spec_not_key(s, i, d2) == spec_not_key(s, i, d),
        within_depth(spec_not_key(s, i, d).unwrap().0, d + 1),
    decreases d, 4nat, 0nat,
{
    lemma_search_key_depth(s, i + 4, d, d2);
}

proof fn lemma_or_key_depth(s: Seq<u8>, i: int, d: nat, d2: nat)
    requires
        d <= d2,
        spec_or_key(s, i, d) is Some,
    ensures
        spec_or_key(s, i, d2) == spec_or_key(s, i, d),
        within_depth(spec_or_key(s, i, d).unwrap().0, d + 1),
    decreases d, 4nat, 0nat,
{
    lemma_search_key_depth(s, i + 3, d, d2);
    let j = spec_search_key(s, i + 3, d).unwrap().1;
    lemma_search_key_depth(s, j + 1, d, d2);
}

proof fn lemma_and_key_depth(s: Seq<u8>, i: int, d: nat, d2: nat)
    requires
        d <= d2,
        spec_and_key(s, i, d) is Some,
    ensures
        spec_and_key(s, i, d2) == spec_and_key(s, i, d),
        within_depth(spec_and_key(s, i, d).unwrap().0, d + 1),
    decreases d, 4nat, 0nat,
{
    lemma_search_key_depth(s, i + 1, d, d2);
    let (k, j) = spec_search_key(s, i + 1, d).unwrap();
    lemma_keys_after_depth(s, j, d, d2);
    let (ks, e) = spec_search_keys_after(s, j, d);
    assert forall|n: int| 0 <= n < (seq![k] + ks).len() implies within_depth(#[trigger] (seq![k] + ks)[n], d) by {
        if n > 0 {
            assert((seq![k] + ks)[n] == ks[n - 1]);
        }
    }
}

proof fn lemma_keys_after_depth(s: Seq<u8>, i: int, d: nat, d2: nat)
    requires
        d <= d2,
        !(0 <= spec_search_keys_after(s, i, d).1 < s.len() && s[spec_search_keys_after(s, i, d).1] == SP),
    ensures
        spec_search_keys_after(s, i, d2) == spec_search_keys_after(s, i, d),
        forall|n: int| 0 <= n < spec_search_keys_after(s, i, d).0.len()
            ==> within_depth(#[trigger] spec_search_keys_after(s, i, d).0[n], d),
    decreases d, 3nat, s.len() - i,
{
    if 0 <= i < s.len() && s[i] == SP {
        if spec_search_key(s, i + 1, d) is Some {
            let (k, j) = spec_search_key(s, i + 1, d).unwrap();
            lemma_search_key_depth(s, i + 1, d, d2);
            if i < j <= s.len() {
                lemma_keys_after_depth(s, j, d, d2);
                let (ks, e) = spec_search_keys_after(s, j, d);
                assert forall|n: int| 0 <= n < (seq![k] + ks).len() implies within_depth(#[trigger] (seq![k] + ks)[n], d) by {
                    if n > 0 {
                        assert((seq![k] + ks)[n] == ks[n - 1]);
                    }
                }
            }
        }
    }
}

} // verus!

verus! {

// ---------------------------------------------------------------------
// What is written of a search key reads back.

/// Whether a search key can be written and read back: its strings, dates,
/// atoms, identifiers and sets can, and a list of keys is not empty.
pub open spec fn writable_search_key(k: SearchKeyV) -> bool
    decreases k,
{
    match k {
        SearchKeyV::And(ks) => ks.len() > 0 && forall|n: int| 0 <= n < ks.len() ==> writable_search_key(#[trigger] ks[n]),
        SearchKeyV::SequenceSet(q) => q matches Some(es) ==> crate::sequence::wf_sequence_set(es),
        SearchKeyV::Uid(q) => q matches Some(es) ==> crate::sequence::wf_sequence_set(es),
        SearchKeyV::Bcc(a) => crate::strings::writable_str(a),
        SearchKeyV::Body(a) => crate::strings::writable_str(a),
        SearchKeyV::Cc(a) => crate::strings::writable_str(a),
        SearchKeyV::From(a) => crate::strings::writable_str(a),
        SearchKeyV::Subject(a) => crate::strings::writable_str(a),
        SearchKeyV::Text(a) => crate::strings::writable_str(a),
        SearchKeyV::To(a) => crate::strings::writable_str(a),
        SearchKeyV::Header(a, b) => crate::strings::writable_str(a) && crate::strings::writable_str(b),
        SearchKeyV::Before(d) => crate::date::is_valid_date(d.0, d.1, d.2),
        SearchKeyV::On(d) => crate::date::is_valid_date(d.0, d.1, d.2),
        SearchKeyV::SentBefore(d) => crate::date::is_valid_date(d.0, d.1, d.2),
        SearchKeyV::SentOn(d) => crate::date::is_valid_date(d.0, d.1, d.2),
        SearchKeyV::SentSince(d) => crate::date::is_valid_date(d.0, d.1, d.2),
        SearchKeyV::Since(d) => crate::date::is_valid_date(d.0, d.1, d.2),
        SearchKeyV::Keyword(a) => a.len() > 0 && crate::chars::all_in(a, crate::chars::ByteClass::Atom),
        SearchKeyV::Unkeyword(a) => a.len() > 0 && crate::chars::all_in(a, crate::chars::ByteClass::Atom),
        SearchKeyV::EmailId(o) => crate::objectid::spec_objectid_check(o) is Ok,
        SearchKeyV::ThreadId(o) => crate::objectid::spec_objectid_check(o) is Ok,
        SearchKeyV::Not(a) => writable_search_key(*a),
        SearchKeyV::Or(a, b) => writable_search_key(*a) && writable_search_key(*b),
        _ => true,
    }
}

/// Whether a byte may follow a search key: a space, `)` or CR.
pub open spec fn follows_key(b: u8) -> bool {
    b == SP || b == RPAREN || b == crate::chars::CR
}

/// A word and what follows it, written at `i`: the word stands there, and
/// what follows it after.
pub proof fn lemma_after_keyword_at(s: Seq<u8>, i: int, kw: Seq<u8>, x: Seq<u8>)
    requires
        0 <= i,
        i + kw.len() + x.len() <= s.len(),
        s.subrange(i, i + kw.len() + x.len()) == kw + x,
    ensures
        spec_keyword(s, i, kw),
        s.subrange(i, i + kw.len()) == kw,
        s.subrange(i + kw.len(), i + kw.len() + x.len()) == x,
{
    lemma_after_keyword(s, i, kw, x);
}

/// A word and what follows it, written at `i`: the word stands there, and
/// what follows it after.
proof fn lemma_after_keyword(s: Seq<u8>, i: int, kw: Seq<u8>, x: Seq<u8>)
    requires
        0 <= i,
        i + kw.len() + x.len() <= s.len(),
        s.subrange(i, i + kw.len() + x.len()) == kw + x,
    ensures
        spec_keyword(s, i, kw),
        s.subrange(i, i + kw.len()) == kw,
        s.subrange(i + kw.len(), i + kw.len() + x.len()) == x,
{
    let w = kw + x;
    crate::chars::lemma_part(s, i, w, 0, kw.len() as int);
    assert(w.subrange(0, kw.len() as int) =~= kw);
    crate::chars::lemma_keyword_at(s, i, kw);
    crate::chars::lemma_part(s, i, w, kw.len() as int, x.len() as int);
    assert(w.subrange(kw.len() as int, kw.len() + x.len() as int) =~= x);
}

/// `ALL`, written at `i` and followed by a byte that may follow a
/// key, is read there, and no word tried before it is.
#[verifier::spinoff_prover]
proof fn lemma_read_all(s: Seq<u8>, i: int)
    requires
        0 <= i,
        i + spec_write_search_key(SearchKeyV::All).len() < s.len(),
        s.subrange(i, i + spec_write_search_key(SearchKeyV::All).len()) == spec_write_search_key(SearchKeyV::All),
        follows_key(s[i + spec_write_search_key(SearchKeyV::All).len()]),
    ensures
        spec_key_simple_first(s, i) == Some((SearchKeyV::All, i + spec_write_search_key(SearchKeyV::All).len())),
{
    let w = ALL@;
    assert(spec_write_search_key(SearchKeyV::All) =~= w);
    let e = i + w.len();
    assert forall|q: int| 0 <= q < w.len() implies s[i + q] == #[trigger] w[q] by {
        assert(s[i + q] == s.subrange(i, e)[q]);
    }
    reveal(spec_key_simple_first);
    crate::chars::lemma_keyword_at(s, i, ALL@);
}

/// `ANSWERED`, written at `i` and followed by a byte that may follow a
/// key, is read there, and no word tried before it is.
#[verifier::spinoff_prover]
proof fn lemma_read_answered(s: Seq<u8>, i: int)
    requires
        0 <= i,
        i + spec_write_search_key(SearchKeyV::Answered).len() < s.len(),
        s.subrange(i, i + spec_write_search_key(SearchKeyV::Answered).len()) == spec_write_search_key(SearchKeyV::Answered),
        follows_key(s[i + spec_write_search_key(SearchKeyV::Answered).len()]),
    ensures
        spec_key_simple_first(s, i) == Some((SearchKeyV::Answered, i + spec_write_search_key(SearchKeyV::Answered).len())),
{
    let w = ANSWERED@;
    assert(spec_write_search_key(SearchKeyV::Answered) =~= w);
    let e = i + w.len();
    assert forall|q: int| 0 <= q < w.len() implies s[i + q] == #[trigger] w[q] by {
        assert(s[i + q] == s.subrange(i, e)[q]);
    }
    assert(s[i + 1] == w[1]);
    crate::chars::lemma_not_keyword(s, i, ALL@, 1);
    reveal(spec_key_simple_first);
    crate::chars::lemma_keyword_at(s, i, ANSWERED@);
}

/// `BCC`, written at `i` and followed by a byte that may follow a
/// key, is read there, and no word tried before it is.
#[verifier::spinoff_prover]
proof fn lemma_read_bcc(a: StrV, s: Seq<u8>, i: int)
    requires
        0 <= i,
        writable_search_key(SearchKeyV::Bcc(a)),
        i + spec_write_search_key(SearchKeyV::Bcc(a)).len() < s.len(),
        s.subrange(i, i + spec_write_search_key(SearchKeyV::Bcc(a)).len()) == spec_write_search_key(SearchKeyV::Bcc(a)),
        follows_key(s[i + spec_write_search_key(SearchKeyV::Bcc(a)).len()]),
    ensures
        spec_key_simple_first(s, i) == Some((SearchKeyV::Bcc(a), i + spec_write_search_key(SearchKeyV::Bcc(a)).len())),
{
    let x = spec_write_str(a);
    let w = BCC_SP@ + x;
    assert(spec_write_search_key(SearchKeyV::Bcc(a)) =~= w);
    let e = i + w.len();
    assert forall|q: int| 0 <= q < w.len() implies s[i + q] == #[trigger] w[q] by {
        assert(s[i + q] == s.subrange(i, e)[q]);
    }
    assert(s[i + 0] == w[0]);
    crate::chars::lemma_not_keyword(s, i, ALL@, 0);
    crate::chars::lemma_not_keyword(s, i, ANSWERED@, 0);
    reveal(spec_key_simple_first);
    lemma_after_keyword(s, i, BCC_SP@, x);
    assert(s[i + 4 + x.len()] == s[e]);
    crate::strings::lemma_astring_round_trip(a, s, i + 4);
}

/// `BEFORE`, written at `i` and followed by a byte that may follow a
/// key, is read there, and no word tried before it is.
#[verifier::spinoff_prover]
proof fn lemma_read_before(dt: (u16, u8, u8), s: Seq<u8>, i: int)
    requires
        0 <= i,
        writable_search_key(SearchKeyV::Before(dt)),
        i + spec_write_search_key(SearchKeyV::Before(dt)).len() < s.len(),
        s.subrange(i, i + spec_write_search_key(SearchKeyV::Before(dt)).len()) == spec_write_search_key(SearchKeyV::Before(dt)),
        follows_key(s[i + spec_write_search_key(SearchKeyV::Before(dt)).len()]),
    ensures
        spec_key_simple_first(s, i) == Some((SearchKeyV::Before(dt), i + spec_write_search_key(SearchKeyV::Before(dt)).len())),
{
    let x = crate::date::spec_write_date(dt);
    let w = BEFORE_SP@ + x;
    assert(spec_write_search_key(SearchKeyV::Before(dt)) =~= w);
    let e = i + w.len();
    assert forall|q: int| 0 <= q < w.len() implies s[i + q] == #[trigger] w[q] by {
        assert(s[i + q] == s.subrange(i, e)[q]);
    }
    assert(s[i + 0] == w[0]);
    assert(s[i + 1] == w[1]);
    crate::chars::lemma_not_keyword(s, i, ALL@, 0);
    crate::chars::lemma_not_keyword(s, i, ANSWERED@, 0);
    crate::chars::lemma_not_keyword(s, i, BCC_SP@, 1);
    reveal(spec_key_simple_first);
    lemma_after_keyword(s, i, BEFORE_SP@, x);
    assert(s[i + 7 + x.len()] == s[e]);
    crate::date::lemma_date_round_trip(dt, s, i + 7);
}

/// `BODY`, written at `i` and followed by a byte that may follow a
/// key, is read there, and no word tried before it is.
#[verifier::spinoff_prover]
proof fn lemma_read_body(a: StrV, s: Seq<u8>, i: int)
    requires
        0 <= i,
        writable_search_key(SearchKeyV::Body(a)),
        i + spec_write_search_key(SearchKeyV::Body(a)).len() < s.len(),
        s.subrange(i, i + spec_write_search_key(SearchKeyV::Body(a)).len()) == spec_write_search_key(SearchKeyV::Body(a)),
        follows_key(s[i + spec_write_search_key(SearchKeyV::Body(a)).len()]),
    ensures
        spec_key_simple_first(s, i) == Some((SearchKeyV::Body(a), i + spec_write_search_key(SearchKeyV::Body(a)).len())),
{
    let x = spec_write_str(a);
    let w = BODY_SP@ + x;
    assert(spec_write_search_key(SearchKeyV::Body(a)) =~= w);
    let e = i + w.len();
    assert forall|q: int| 0 <= q < w.len() implies s[i + q] == #[trigger] w[q] by {
        assert(s[i + q] == s.subrange(i, e)[q]);
    }
    assert(s[i + 0] == w[0]);
    assert(s[i + 1] == w[1]);
    crate::chars::lemma_not_keyword(s, i, ALL@, 0);
    crate::chars::lemma_not_keyword(s, i, ANSWERED@, 0);
    crate::chars::lemma_not_keyword(s, i, BCC_SP@, 1);
    crate::chars::lemma_not_keyword(s, i, BEFORE_SP@, 1);
    reveal(spec_key_simple_first);
    lemma_after_keyword(s, i, BODY_SP@, x);
    assert(s[i + 5 + x.len()] == s[e]);
    crate::strings::lemma_astring_round_trip(a, s, i + 5);
}

/// `CC`, written at `i` and followed by a byte that may follow a
/// key, is read there, and no word tried before it is.
#[verifier::spinoff_prover]
proof fn lemma_read_cc(a: StrV, s: Seq<u8>, i: int)
    requires
        0 <= i,
        writable_search_key(SearchKeyV::Cc(a)),
        i + spec_write_search_key(SearchKeyV::Cc(a)).len() < s.len(),
        s.subrange(i, i + spec_write_search_key(SearchKeyV::Cc(a)).len()) == spec_write_search_key(SearchKeyV::Cc(a)),
        follows_key(s[i + spec_write_search_key(SearchKeyV::Cc(a)).len()]),
    ensures
        spec_key_simple_first(s, i) == Some((SearchKeyV::Cc(a), i + spec_write_search_key(SearchKeyV::Cc(a)).len())),
{
    let x = spec_write_str(a);
    let w = CC_SP@ + x;
    assert(spec_write_search_key(SearchKeyV::Cc(a)) =~= w);
    let e = i + w.len();
    assert forall|q: int| 0 <= q < w.len() implies s[i + q] == #[trigger] w[q] by {
        assert(s[i + q] == s.subrange(i, e)[q]);
    }
    assert(s[i + 0] == w[0]);
    crate::chars::lemma_not_keyword(s, i, ALL@, 0);
    crate::chars::lemma_not_keyword(s, i, ANSWERED@, 0);
    crate::chars::lemma_not_keyword(s, i, BCC_SP@, 0);
    crate::chars::lemma_not_keyword(s, i, BEFORE_SP@, 0);
    crate::chars::lemma_not_keyword(s, i, BODY_SP@, 0);
    reveal(spec_key_simple_first);
    lemma_after_keyword(s, i, CC_SP@, x);
    assert(s[i + 3 + x.len()] == s[e]);
    crate::strings::lemma_astring_round_trip(a, s, i + 3);
}

/// `DELETED`, written at `i` and followed by a byte that may follow a
/// key, is read there, and no word tried before it is.
#[verifier::spinoff_prover]
proof fn lemma_read_deleted(s: Seq<u8>, i: int)
    requires
        0 <= i,
        i + spec_write_search_key(SearchKeyV::Deleted).len() < s.len(),
        s.subrange(i, i + spec_write_search_key(SearchKeyV::Deleted).len()) == spec_write_search_key(SearchKeyV::Deleted),
        follows_key(s[i + spec_write_search_key(SearchKeyV::Deleted).len()]),
    ensures
        spec_key_simple_first(s, i) == Some((SearchKeyV::Deleted, i + spec_write_search_key(SearchKeyV::Deleted).len())),
{
    let w = DELETED@;
    assert(spec_write_search_key(SearchKeyV::Deleted) =~= w);
    let e = i + w.len();
    assert forall|q: int| 0 <= q < w.len() implies s[i + q] == #[trigger] w[q] by {
        assert(s[i + q] == s.subrange(i, e)[q]);
    }
    assert(s[i + 0] == w[0]);
    crate::chars::lemma_not_keyword(s, i, ALL@, 0);
    crate::chars::lemma_not_keyword(s, i, ANSWERED@, 0);
    crate::chars::lemma_not_keyword(s, i, BCC_SP@, 0);
    crate::chars::lemma_not_keyword(s, i, BEFORE_SP@, 0);
    crate::chars::lemma_not_keyword(s, i, BODY_SP@, 0);
    crate::chars::lemma_not_keyword(s, i, CC_SP@, 0);
    reveal(spec_key_simple_first);
    crate::chars::lemma_keyword_at(s, i, DELETED@);
}

/// `FLAGGED`, written at `i` and followed by a byte that may follow a
/// key, is read there, and no word tried before it is.
#[verifier::spinoff_prover]
proof fn lemma_read_flagged(s: Seq<u8>, i: int)
    requires
        0 <= i,
        i + spec_write_search_key(SearchKeyV::Flagged).len() < s.len(),
        s.subrange(i, i + spec_write_search_key(SearchKeyV::Flagged).len()) == spec_write_search_key(SearchKeyV::Flagged),
        follows_key(s[i + spec_write_search_key(SearchKeyV::Flagged).len()]),
    ensures
        spec_key_simple_first(s, i) == Some((SearchKeyV::Flagged, i + spec_write_search_key(SearchKeyV::Flagged).len())),
{
    let w = FLAGGED@;
    assert(spec_write_search_key(SearchKeyV::Flagged) =~= w);
    let e = i + w.len();
    assert forall|q: int| 0 <= q < w.len() implies s[i + q] == #[trigger] w[q] by {
        assert(s[i + q] == s.subrange(i, e)[q]);
    }
    assert(s[i + 0] == w[0]);
    crate::chars::lemma_not_keyword(s, i, ALL@, 0);
    crate::chars::lemma_not_keyword(s, i, ANSWERED@, 0);
    crate::chars::lemma_not_keyword(s, i, BCC_SP@, 0);
    crate::chars::lemma_not_keyword(s, i, BEFORE_SP@, 0);
    crate::chars::lemma_not_keyword(s, i, BODY_SP@, 0);
    crate::chars::lemma_not_keyword(s, i, CC_SP@, 0);
    crate::chars::lemma_not_keyword(s, i, DELETED@, 0);
    reveal(spec_key_simple_first);
    crate::chars::lemma_keyword_at(s, i, FLAGGED@);
}

/// `FROM`, written at `i` and followed by a byte that may follow a
/// key, is read there, and no word tried before it is.
#[verifier::spinoff_prover]
proof fn lemma_read_from(a: StrV, s: Seq<u8>, i: int)
    requires
        0 <= i,
        writable_search_key(SearchKeyV::From(a)),
        i + spec_write_search_key(SearchKeyV::From(a)).len() < s.len(),
        s.subrange(i, i + spec_write_search_key(SearchKeyV::From(a)).len()) == spec_write_search_key(SearchKeyV::From(a)),
        follows_key(s[i + spec_write_search_key(SearchKeyV::From(a)).len()]),
    ensures
        spec_key_simple_first(s, i) == Some((SearchKeyV::From(a), i + spec_write_search_key(SearchKeyV::From(a)).len())),
{
    let x = spec_write_str(a);
    let w = FROM_SP@ + x;
    assert(spec_write_search_key(SearchKeyV::From(a)) =~= w);
    let e = i + w.len();
    assert forall|q: int| 0 <= q < w.len() implies s[i + q] == #[trigger] w[q] by {
        assert(s[i + q] == s.subrange(i, e)[q]);
    }
    assert(s[i + 0] == w[0]);
    assert(s[i + 1] == w[1]);
    crate::chars::lemma_not_keyword(s, i, ALL@, 0);
    crate::chars::lemma_not_keyword(s, i, ANSWERED@, 0);
    crate::chars::lemma_not_keyword(s, i, BCC_SP@, 0);
    crate::chars::lemma_not_keyword(s, i, BEFORE_SP@, 0);
    crate::chars::lemma_not_keyword(s, i, BODY_SP@, 0);
    crate::chars::lemma_not_keyword(s, i, CC_SP@, 0);
    crate::chars::lemma_not_keyword(s, i, DELETED@, 0);
    crate::chars::lemma_not_keyword(s, i, FLAGGED@, 1);
    reveal(spec_key_simple_first);
    lemma_after_keyword(s, i, FROM_SP@, x);
    assert(s[i + 5 + x.len()] == s[e]);
    crate::strings::lemma_astring_round_trip(a, s, i + 5);
}

/// `KEYWORD`, written at `i` and followed by a byte that may follow a
/// key, is read there, and no word tried before it is.
#[verifier::spinoff_prover]
proof fn lemma_read_keyword(a: Seq<u8>, s: Seq<u8>, i: int)
    requires
        0 <= i,
        writable_search_key(SearchKeyV::Keyword(a)),
        i + spec_write_search_key(SearchKeyV::Keyword(a)).len() < s.len(),
        s.subrange(i, i + spec_write_search_key(SearchKeyV::Keyword(a)).len()) == spec_write_search_key(SearchKeyV::Keyword(a)),
        follows_key(s[i + spec_write_search_key(SearchKeyV::Keyword(a)).len()]),
    ensures
        spec_key_simple_first(s, i) == Some((SearchKeyV::Keyword(a), i + spec_write_search_key(SearchKeyV::Keyword(a)).len())),
{
    let x = a;
    let w = KEYWORD_SP@ + x;
    assert(spec_write_search_key(SearchKeyV::Keyword(a)) =~= w);
    let e = i + w.len();
    assert forall|q: int| 0 <= q < w.len() implies s[i + q] == #[trigger] w[q] by {
        assert(s[i + q] == s.subrange(i, e)[q]);
    }
    assert(s[i + 0] == w[0]);
    crate::chars::lemma_not_keyword(s, i, ALL@, 0);
    crate::chars::lemma_not_keyword(s, i, ANSWERED@, 0);
    crate::chars::lemma_not_keyword(s, i, BCC_SP@, 0);
    crate::chars::lemma_not_keyword(s, i, BEFORE_SP@, 0);
    crate::chars::lemma_not_keyword(s, i, BODY_SP@, 0);
    crate::chars::lemma_not_keyword(s, i, CC_SP@, 0);
    crate::chars::lemma_not_keyword(s, i, DELETED@, 0);
    crate::chars::lemma_not_keyword(s, i, FLAGGED@, 0);
    crate::chars::lemma_not_keyword(s, i, FROM_SP@, 0);
    reveal(spec_key_simple_first);
    lemma_after_keyword(s, i, KEYWORD_SP@, x);
    assert(s[i + 8 + x.len()] == s[e]);
    crate::strings::lemma_atom_round_trip(a, s, i + 8);
}

/// `NEW`, written at `i` and followed by a byte that may follow a
/// key, is read there, and no word tried before it is.
#[verifier::spinoff_prover]
proof fn lemma_read_new(s: Seq<u8>, i: int)
    requires
        0 <= i,
        i + spec_write_search_key(SearchKeyV::New).len() < s.len(),
        s.subrange(i, i + spec_write_search_key(SearchKeyV::New).len()) == spec_write_search_key(SearchKeyV::New),
        follows_key(s[i + spec_write_search_key(SearchKeyV::New).len()]),
    ensures
        spec_key_simple_first(s, i) == Some((SearchKeyV::New, i + spec_write_search_key(SearchKeyV::New).len())),
{
    let w = NEW@;
    assert(spec_write_search_key(SearchKeyV::New) =~= w);
    let e = i + w.len();
    assert forall|q: int| 0 <= q < w.len() implies s[i + q] == #[trigger] w[q] by {
        assert(s[i + q] == s.subrange(i, e)[q]);
    }
    assert(s[i + 0] == w[0]);
    crate::chars::lemma_not_keyword(s, i, ALL@, 0);
    crate::chars::lemma_not_keyword(s, i, ANSWERED@, 0);
    crate::chars::lemma_not_keyword(s, i, BCC_SP@, 0);
    crate::chars::lemma_not_keyword(s, i, BEFORE_SP@, 0);
    crate::chars::lemma_not_keyword(s, i, BODY_SP@, 0);
    crate::chars::lemma_not_keyword(s, i, CC_SP@, 0);
    crate::chars::lemma_not_keyword(s, i, DELETED@, 0);
    crate::chars::lemma_not_keyword(s, i, FLAGGED@, 0);
    crate::chars::lemma_not_keyword(s, i, FROM_SP@, 0);
    crate::chars::lemma_not_keyword(s, i, KEYWORD_SP@, 0);
    reveal(spec_key_simple_first);
    crate::chars::lemma_keyword_at(s, i, NEW@);
}

/// `OLD`, written at `i` and followed by a byte that may follow a
/// key, is read there, and no word tried before it is.
#[verifier::spinoff_prover]
proof fn lemma_read_old(s: Seq<u8>, i: int)
    requires
        0 <= i,
        i + spec_write_search_key(SearchKeyV::Old).len() < s.len(),
        s.subrange(i, i + spec_write_search_key(SearchKeyV::Old).len()) == spec_write_search_key(SearchKeyV::Old),
        follows_key(s[i + spec_write_search_key(SearchKeyV::Old).len()]),
    ensures
        spec_key_simple_first(s, i) is None,
        spec_key_simple_rest(s, i) == Some((SearchKeyV::Old, i + spec_write_search_key(SearchKeyV::Old).len())),
{
    let w = OLD@;
    assert(spec_write_search_key(SearchKeyV::Old) =~= w);
    let e = i + w.len();
    assert forall|q: int| 0 <= q < w.len() implies s[i + q] == #[trigger] w[q] by {
        assert(s[i + q] == s.subrange(i, e)[q]);
    }
    assert(s[i + 0] == w[0]);
    crate::chars::lemma_not_keyword(s, i, ALL@, 0);
    crate::chars::lemma_not_keyword(s, i, ANSWERED@, 0);
    crate::chars::lemma_not_keyword(s, i, BCC_SP@, 0);
    crate::chars::lemma_not_keyword(s, i, BEFORE_SP@, 0);
    crate::chars::lemma_not_keyword(s, i, BODY_SP@, 0);
    crate::chars::lemma_not_keyword(s, i, CC_SP@, 0);
    crate::chars::lemma_not_keyword(s, i, DELETED@, 0);
    crate::chars::lemma_not_keyword(s, i, FLAGGED@, 0);
    crate::chars::lemma_not_keyword(s, i, FROM_SP@, 0);
    crate::chars::lemma_not_keyword(s, i, KEYWORD_SP@, 0);
    crate::chars::lemma_not_keyword(s, i, NEW@, 0);
    lemma_first_none(s, i);
    reveal(spec_key_simple_rest);
    crate::chars::lemma_keyword_at(s, i, OLD@);
}

/// `ON`, written at `i` and followed by a byte that may follow a
/// key, is read there, and no word tried before it is.
#[verifier::spinoff_prover]
proof fn lemma_read_on(dt: (u16, u8, u8), s: Seq<u8>, i: int)
    requires
        0 <= i,
        writable_search_key(SearchKeyV::On(dt)),
        i + spec_write_search_key(SearchKeyV::On(dt)).len() < s.len(),
        s.subrange(i, i + spec_write_search_key(SearchKeyV::On(dt)).len()) == spec_write_search_key(SearchKeyV::On(dt)),
        follows_key(s[i + spec_write_search_key(SearchKeyV::On(dt)).len()]),
    ensures
        spec_key_simple_first(s, i) is None,
        spec_key_simple_rest(s, i) == Some((SearchKeyV::On(dt), i + spec_write_search_key(SearchKeyV::On(dt)).len())),
{
    let x = crate::date::spec_write_date(dt);
    let w = ON_SP@ + x;
    assert(spec_write_search_key(SearchKeyV::On(dt)) =~= w);
    let e = i + w.len();
    assert forall|q: int| 0 <= q < w.len() implies s[i + q] == #[trigger] w[q] by {
        assert(s[i + q] == s.subrange(i, e)[q]);
    }
    assert(s[i + 0] == w[0]);
    assert(s[i + 1] == w[1]);
    crate::chars::lemma_not_keyword(s, i, ALL@, 0);
    crate::chars::lemma_not_keyword(s, i, ANSWERED@, 0);
    crate::chars::lemma_not_keyword(s, i, BCC_SP@, 0);
    crate::chars::lemma_not_keyword(s, i, BEFORE_SP@, 0);
    crate::chars::lemma_not_keyword(s, i, BODY_SP@, 0);
    crate::chars::lemma_not_keyword(s, i, CC_SP@, 0);
    crate::chars::lemma_not_keyword(s, i, DELETED@, 0);
    crate::chars::lemma_not_keyword(s, i, FLAGGED@, 0);
    crate::chars::lemma_not_keyword(s, i, FROM_SP@, 0);
    crate::chars::lemma_not_keyword(s, i, KEYWORD_SP@, 0);
    crate::chars::lemma_not_keyword(s, i, NEW@, 0);
    crate::chars::lemma_not_keyword(s, i, OLD@, 1);
    lemma_first_none(s, i);
    reveal(spec_key_simple_rest);
    lemma_after_keyword(s, i, ON_SP@, x);
    assert(s[i + 3 + x.len()] == s[e]);
    crate::date::lemma_date_round_trip(dt, s, i + 3);
}

/// `RECENT`, written at `i` and followed by a byte that may follow a
/// key, is read there, and no word tried before it is.
#[verifier::spinoff_prover]
proof fn lemma_read_recent(s: Seq<u8>, i: int)
    requires
        0 <= i,
        i + spec_write_search_key(SearchKeyV::Recent).len() < s.len(),
        s.subrange(i, i + spec_write_search_key(SearchKeyV::Recent).len()) == spec_write_search_key(SearchKeyV::Recent),
        follows_key(s[i + spec_write_search_key(SearchKeyV::Recent).len()]),
    ensures
        spec_key_simple_first(s, i) is None,
        spec_key_simple_rest(s, i) == Some((SearchKeyV::Recent, i + spec_write_search_key(SearchKeyV::Recent).len())),
{
    let w = RECENT@;
    assert(spec_write_search_key(SearchKeyV::Recent) =~= w);
    let e = i + w.len();
    assert forall|q: int| 0 <= q < w.len() implies s[i + q] == #[trigger] w[q] by {
        assert(s[i + q] == s.subrange(i, e)[q]);
    }
    assert(s[i + 0] == w[0]);
    crate::chars::lemma_not_keyword(s, i, ALL@, 0);
    crate::chars::lemma_not_keyword(s, i, ANSWERED@, 0);
    crate::chars::lemma_not_keyword(s, i, BCC_SP@, 0);
    crate::chars::lemma_not_keyword(s, i, BEFORE_SP@, 0);
    crate::chars::lemma_not_keyword(s, i, BODY_SP@, 0);
    crate::chars::lemma_not_keyword(s, i, CC_SP@, 0);
    crate::chars::lemma_not_keyword(s, i, DELETED@, 0);
    crate::chars::lemma_not_keyword(s, i, FLAGGED@, 0);
    crate::chars::lemma_not_keyword(s, i, FROM_SP@, 0);
    crate::chars::lemma_not_keyword(s, i, KEYWORD_SP@, 0);
    crate::chars::lemma_not_keyword(s, i, NEW@, 0);
    crate::chars::lemma_not_keyword(s, i, OLD@, 0);
    crate::chars::lemma_not_keyword(s, i, ON_SP@, 0);
    lemma_first_none(s, i);
    reveal(spec_key_simple_rest);
    crate::chars::lemma_keyword_at(s, i, RECENT@);
}

/// `SEEN`, written at `i` and followed by a byte that may follow a
/// key, is read there, and no word tried before it is.
#[verifier::spinoff_prover]
proof fn lemma_read_seen(s: Seq<u8>, i: int)
    requires
        0 <= i,
        i + spec_write_search_key(SearchKeyV::Seen).len() < s.len(),
        s.subrange(i, i + spec_write_search_key(SearchKeyV::Seen).len()) == spec_write_search_key(SearchKeyV::Seen),
        follows_key(s[i + spec_write_search_key(SearchKeyV::Seen).len()]),
    ensures
        spec_key_simple_first(s, i) is None,
        spec_key_simple_rest(s, i) == Some((SearchKeyV::Seen, i + spec_write_search_key(SearchKeyV::Seen).len())),
{
    let w = SEEN@;
    assert(spec_write_search_key(SearchKeyV::Seen) =~= w);
    let e = i + w.len();
    assert forall|q: int| 0 <= q < w.len() implies s[i + q] == #[trigger] w[q] by {
        assert(s[i + q] == s.subrange(i, e)[q]);
    }
    assert(s[i + 0] == w[0]);
    crate::chars::lemma_not_keyword(s, i, ALL@, 0);
    crate::chars::lemma_not_keyword(s, i, ANSWERED@, 0);
    crate::chars::lemma_not_keyword(s, i, BCC_SP@, 0);
    crate::chars::lemma_not_keyword(s, i, BEFORE_SP@, 0);
    crate::chars::lemma_not_keyword(s, i, BODY_SP@, 0);
    crate::chars::lemma_not_keyword(s, i, CC_SP@, 0);
    crate::chars::lemma_not_keyword(s, i, DELETED@, 0);
    crate::chars::lemma_not_keyword(s, i, FLAGGED@, 0);
    crate::chars::lemma_not_keyword(s, i, FROM_SP@, 0);
    crate::chars::lemma_not_keyword(s, i, KEYWORD_SP@, 0);
    crate::chars::lemma_not_keyword(s, i, NEW@, 0);
    crate::chars::lemma_not_keyword(s, i, OLD@, 0);
    crate::chars::lemma_not_keyword(s, i, ON_SP@, 0);
    crate::chars::lemma_not_keyword(s, i, RECENT@, 0);
    lemma_first_none(s, i);
    reveal(spec_key_simple_rest);
    crate::chars::lemma_keyword_at(s, i, SEEN@);
}

/// `SINCE`, written at `i` and followed by a byte that may follow a
/// key, is read there, and no word tried before it is.
#[verifier::spinoff_prover]
proof fn lemma_read_since(dt: (u16, u8, u8), s: Seq<u8>, i: int)
    requires
        0 <= i,
        writable_search_key(SearchKeyV::Since(dt)),
        i + spec_write_search_key(SearchKeyV::Since(dt)).len() < s.len(),
        s.subrange(i, i + spec_write_search_key(SearchKeyV::Since(dt)).len()) == spec_write_search_key(SearchKeyV::Since(dt)),
        follows_key(s[i + spec_write_search_key(SearchKeyV::Since(dt)).len()]),
    ensures
        spec_key_simple_first(s, i) is None,
        spec_key_simple_rest(s, i) == Some((SearchKeyV::Since(dt), i + spec_write_search_key(SearchKeyV::Since(dt)).len())),
{
    let x = crate::date::spec_write_date(dt);
    let w = SINCE_SP@ + x;
    assert(spec_write_search_key(SearchKeyV::Since(dt)) =~= w);
    let e = i + w.len();
    assert forall|q: int| 0 <= q < w.len() implies s[i + q] == #[trigger] w[q] by {
        assert(s[i + q] == s.subrange(i, e)[q]);
    }
    assert(s[i + 0] == w[0]);
    assert(s[i + 1] == w[1]);
    crate::chars::lemma_not_keyword(s, i, ALL@, 0);
    crate::chars::lemma_not_keyword(s, i, ANSWERED@, 0);
    crate::chars::lemma_not_keyword(s, i, BCC_SP@, 0);
    crate::chars::lemma_not_keyword(s, i, BEFORE_SP@, 0);
    crate::chars::lemma_not_keyword(s, i, BODY_SP@, 0);
    crate::chars::lemma_not_keyword(s, i, CC_SP@, 0);
    crate::chars::lemma_not_keyword(s, i, DELETED@, 0);
    crate::chars::lemma_not_keyword(s, i, FLAGGED@, 0);
    crate::chars::lemma_not_keyword(s, i, FROM_SP@, 0);
    crate::chars::lemma_not_keyword(s, i, KEYWORD_SP@, 0);
    crate::chars::lemma_not_keyword(s, i, NEW@, 0);
    crate::chars::lemma_not_keyword(s, i, OLD@, 0);
    crate::chars::lemma_not_keyword(s, i, ON_SP@, 0);
    crate::chars::lemma_not_keyword(s, i, RECENT@, 0);
    crate::chars::lemma_not_keyword(s, i, SEEN@, 1);
    lemma_first_none(s, i);
    reveal(spec_key_simple_rest);
    lemma_after_keyword(s, i, SINCE_SP@, x);
    assert(s[i + 6 + x.len()] == s[e]);
    crate::date::lemma_date_round_trip(dt, s, i + 6);
}

/// `SUBJECT`, written at `i` and followed by a byte that may follow a
/// key, is read there, and no word tried before it is.
#[verifier::spinoff_prover]
proof fn lemma_read_subject(a: StrV, s: Seq<u8>, i: int)
    requires
        0 <= i,
        writable_search_key(SearchKeyV::Subject(a)),
        i + spec_write_search_key(SearchKeyV::Subject(a)).len() < s.len(),
        s.subrange(i, i + spec_write_search_key(SearchKeyV::Subject(a)).len()) == spec_write_search_key(SearchKeyV::Subject(a)),
        follows_key(s[i + spec_write_search_key(SearchKeyV::Subject(a)).len()]),
    ensures
        spec_key_simple_first(s, i) is None,
        spec_key_simple_rest(s, i) == Some((SearchKeyV::Subject(a), i + spec_write_search_key(SearchKeyV::Subject(a)).len())),
{
    let x = spec_write_str(a);
    let w = SUBJECT_SP@ + x;
    assert(spec_write_search_key(SearchKeyV::Subject(a)) =~= w);
    let e = i + w.len();
    assert forall|q: int| 0 <= q < w.len() implies s[i + q] == #[trigger] w[q] by {
        assert(s[i + q] == s.subrange(i, e)[q]);
    }
    assert(s[i + 0] == w[0]);
    assert(s[i + 1] == w[1]);
    crate::chars::lemma_not_keyword(s, i, ALL@, 0);
    crate::chars::lemma_not_keyword(s, i, ANSWERED@, 0);
    crate::chars::lemma_not_keyword(s, i, BCC_SP@, 0);
    crate::chars::lemma_not_keyword(s, i, BEFORE_SP@, 0);
    crate::chars::lemma_not_keyword(s, i, BODY_SP@, 0);
    crate::chars::lemma_not_keyword(s, i, CC_SP@, 0);
    crate::chars::lemma_not_keyword(s, i, DELETED@, 0);
    crate::chars::lemma_not_keyword(s, i, FLAGGED@, 0);
    crate::chars::lemma_not_keyword(s, i, FROM_SP@, 0);
    crate::chars::lemma_not_keyword(s, i, KEYWORD_SP@, 0);
    crate::chars::lemma_not_keyword(s, i, NEW@, 0);
    crate::chars::lemma_not_keyword(s, i, OLD@, 0);
    crate::chars::lemma_not_keyword(s, i, ON_SP@, 0);
    crate::chars::lemma_not_keyword(s, i, RECENT@, 0);
    crate::chars::lemma_not_keyword(s, i, SEEN@, 1);
    crate::chars::lemma_not_keyword(s, i, SINCE_SP@, 1);
    lemma_first_none(s, i);
    reveal(spec_key_simple_rest);
    lemma_after_keyword(s, i, SUBJECT_SP@, x);
    assert(s[i + 8 + x.len()] == s[e]);
    crate::strings::lemma_astring_round_trip(a, s, i + 8);
}

/// `TEXT`, written at `i` and followed by a byte that may follow a
/// key, is read there, and no word tried before it is.
#[verifier::spinoff_prover]
proof fn lemma_read_text(a: StrV, s: Seq<u8>, i: int)
    requires
        0 <= i,
        writable_search_key(SearchKeyV::Text(a)),
        i + spec_write_search_key(SearchKeyV::Text(a)).len() < s.len(),
        s.subrange(i, i + spec_write_search_key(SearchKeyV::Text(a)).len()) == spec_write_search_key(SearchKeyV::Text(a)),
        follows_key(s[i + spec_write_search_key(SearchKeyV::Text(a)).len()]),
    ensures
        spec_key_simple_first(s, i) is None,
        spec_key_simple_rest(s, i) == Some((SearchKeyV::Text(a), i + spec_write_search_key(SearchKeyV::Text(a)).len())),
{
    let x = spec_write_str(a);
    let w = TEXT_SP@ + x;
    assert(spec_write_search_key(SearchKeyV::Text(a)) =~= w);
    let e = i + w.len();
    assert forall|q: int| 0 <= q < w.len() implies s[i + q] == #[trigger] w[q] by {
        assert(s[i + q] == s.subrange(i, e)[q]);
    }
    assert(s[i + 0] == w[0]);
    crate::chars::lemma_not_keyword(s, i, ALL@, 0);
    crate::chars::lemma_not_keyword(s, i, ANSWERED@, 0);
    crate::chars::lemma_not_keyword(s, i, BCC_SP@, 0);
    crate::chars::lemma_not_keyword(s, i, BEFORE_SP@, 0);
    crate::chars::lemma_not_keyword(s, i, BODY_SP@, 0);
    crate::chars::lemma_not_keyword(s, i, CC_SP@, 0);
    crate::chars::lemma_not_keyword(s, i, DELETED@, 0);
    crate::chars::lemma_not_keyword(s, i, FLAGGED@, 0);
    crate::chars::lemma_not_keyword(s, i, FROM_SP@, 0);
    crate::chars::lemma_not_keyword(s, i, KEYWORD_SP@, 0);
    crate::chars::lemma_not_keyword(s, i, NEW@, 0);
    crate::chars::lemma_not_keyword(s, i, OLD@, 0);
    crate::chars::lemma_not_keyword(s, i, ON_SP@, 0);
    crate::chars::lemma_not_keyword(s, i, RECENT@, 0);
    crate::chars::lemma_not_keyword(s, i, SEEN@, 0);
    crate::chars::lemma_not_keyword(s, i, SINCE_SP@, 0);
    crate::chars::lemma_not_keyword(s, i, SUBJECT_SP@, 0);
    lemma_first_none(s, i);
    reveal(spec_key_simple_rest);
    lemma_after_keyword(s, i, TEXT_SP@, x);
    assert(s[i + 5 + x.len()] == s[e]);
    crate::strings::lemma_astring_round_trip(a, s, i + 5);
}

/// `TO`, written at `i` and followed by a byte that may follow a
/// key, is read there, and no word tried before it is.
#[verifier::spinoff_prover]
proof fn lemma_read_to(a: StrV, s: Seq<u8>, i: int)
    requires
        0 <= i,
        writable_search_key(SearchKeyV::To(a)),
        i + spec_write_search_key(SearchKeyV::To(a)).len() < s.len(),
        s.subrange(i, i + spec_write_search_key(SearchKeyV::To(a)).len()) == spec_write_search_key(SearchKeyV::To(a)),
        follows_key(s[i + spec_write_search_key(SearchKeyV::To(a)).len()]),
    ensures
        spec_key_simple_first(s, i) is None,
        spec_key_simple_rest(s, i) == Some((SearchKeyV::To(a), i + spec_write_search_key(SearchKeyV::To(a)).len())),
{
    let x = spec_write_str(a);
    let w = TO_SP@ + x;
    assert(spec_write_search_key(SearchKeyV::To(a)) =~= w);
    let e = i + w.len();
    assert forall|q: int| 0 <= q < w.len() implies s[i + q] == #[trigger] w[q] by {
        assert(s[i + q] == s.subrange(i, e)[q]);
    }
    assert(s[i + 0] == w[0]);
    assert(s[i + 1] == w[1]);
    crate::chars::lemma_not_keyword(s, i, ALL@, 0);
    crate::chars::lemma_not_keyword(s, i, ANSWERED@, 0);
    crate::chars::lemma_not_keyword(s, i, BCC_SP@, 0);
    crate::chars::lemma_not_keyword(s, i, BEFORE_SP@, 0);
    crate::chars::lemma_not_keyword(s, i, BODY_SP@, 0);
    crate::chars::lemma_not_keyword(s, i, CC_SP@, 0);
    crate::chars::lemma_not_keyword(s, i, DELETED@, 0);
    crate::chars::lemma_not_keyword(s, i, FLAGGED@, 0);
    crate::chars::lemma_not_keyword(s, i, FROM_SP@, 0);
    crate::chars::lemma_not_keyword(s, i, KEYWORD_SP@, 0);
    crate::chars::lemma_not_keyword(s, i, NEW@, 0);
    crate::chars::lemma_not_keyword(s, i, OLD@, 0);
    crate::chars::lemma_not_keyword(s, i, ON_SP@, 0);
    crate::chars::lemma_not_keyword(s, i, RECENT@, 0);
    crate::chars::lemma_not_keyword(s, i, SEEN@, 0);
    crate::chars::lemma_not_keyword(s, i, SINCE_SP@, 0);
    crate::chars::lemma_not_keyword(s, i, SUBJECT_SP@, 0);
    crate::chars::lemma_not_keyword(s, i, TEXT_SP@, 1);
    lemma_first_none(s, i);
    reveal(spec_key_simple_rest);
    lemma_after_keyword(s, i, TO_SP@, x);
    assert(s[i + 3 + x.len()] == s[e]);
    crate::strings::lemma_astring_round_trip(a, s, i + 3);
}

/// `EMAILID`, written at `i` and followed by a byte that may follow a
/// key, is read there, and no word tried before it is.
#[verifier::spinoff_prover]
proof fn lemma_read_email_id(o: Seq<u8>, s: Seq<u8>, i: int)
    requires
        0 <= i,
        writable_search_key(SearchKeyV::EmailId(o)),
        i + spec_write_search_key(SearchKeyV::EmailId(o)).len() < s.len(),
        s.subrange(i, i + spec_write_search_key(SearchKeyV::EmailId(o)).len()) == spec_write_search_key(SearchKeyV::EmailId(o)),
        follows_key(s[i + spec_write_search_key(SearchKeyV::EmailId(o)).len()]),
    ensures
        spec_key_simple_first(s, i) is None,
        spec_key_simple_rest(s, i) == Some((SearchKeyV::EmailId(o), i + spec_write_search_key(SearchKeyV::EmailId(o)).len())),
{
    let x = o;
    let w = EMAILID_SP@ + x;
    assert(spec_write_search_key(SearchKeyV::EmailId(o)) =~= w);
    let e = i + w.len();
    assert forall|q: int| 0 <= q < w.len() implies s[i + q] == #[trigger] w[q] by {
        assert(s[i + q] == s.subrange(i, e)[q]);
    }
    assert(s[i + 0] == w[0]);
    crate::chars::lemma_not_keyword(s, i, ALL@, 0);
    crate::chars::lemma_not_keyword(s, i, ANSWERED@, 0);
    crate::chars::lemma_not_keyword(s, i, BCC_SP@, 0);
    crate::chars::lemma_not_keyword(s, i, BEFORE_SP@, 0);
    crate::chars::lemma_not_keyword(s, i, BODY_SP@, 0);
    crate::chars::lemma_not_keyword(s, i, CC_SP@, 0);
    crate::chars::lemma_not_keyword(s, i, DELETED@, 0);
    crate::chars::lemma_not_keyword(s, i, FLAGGED@, 0);
    crate::chars::lemma_not_keyword(s, i, FROM_SP@, 0);
    crate::chars::lemma_not_keyword(s, i, KEYWORD_SP@, 0);
    crate::chars::lemma_not_keyword(s, i, NEW@, 0);
    crate::chars::lemma_not_keyword(s, i, OLD@, 0);
    crate::chars::lemma_not_keyword(s, i, ON_SP@, 0);
    crate::chars::lemma_not_keyword(s, i, RECENT@, 0);
    crate::chars::lemma_not_keyword(s, i, SEEN@, 0);
    crate::chars::lemma_not_keyword(s, i, SINCE_SP@, 0);
    crate::chars::lemma_not_keyword(s, i, SUBJECT_SP@, 0);
    crate::chars::lemma_not_keyword(s, i, TEXT_SP@, 0);
    crate::chars::lemma_not_keyword(s, i, TO_SP@, 0);
    lemma_first_none(s, i);
    reveal(spec_key_simple_rest);
    lemma_after_keyword(s, i, EMAILID_SP@, x);
    assert(s[i + 8 + x.len()] == s[e]);
    crate::objectid::lemma_objectid_round_trip(o, s, i + 8);
}

/// `THREADID`, written at `i` and followed by a byte that may follow a
/// key, is read there, and no word tried before it is.
#[verifier::spinoff_prover]
proof fn lemma_read_thread_id(o: Seq<u8>, s: Seq<u8>, i: int)
    requires
        0 <= i,
        writable_search_key(SearchKeyV::ThreadId(o)),
        i + spec_write_search_key(SearchKeyV::ThreadId(o)).len() < s.len(),
        s.subrange(i, i + spec_write_search_key(SearchKeyV::ThreadId(o)).len()) == spec_write_search_key(SearchKeyV::ThreadId(o)),
        follows_key(s[i + spec_write_search_key(SearchKeyV::ThreadId(o)).len()]),
    ensures
        spec_key_simple_first(s, i) is None,
        spec_key_simple_rest(s, i) == Some((SearchKeyV::ThreadId(o), i + spec_write_search_key(SearchKeyV::ThreadId(o)).len())),
{
    let x = o;
    let w = THREADID_SP@ + x;
    assert(spec_write_search_key(SearchKeyV::ThreadId(o)) =~= w);
    let e = i + w.len();
    assert forall|q: int| 0 <= q < w.len() implies s[i + q] == #[trigger] w[q] by {
        assert(s[i + q] == s.subrange(i, e)[q]);
    }
    assert(s[i + 0] == w[0]);
    assert(s[i + 1] == w[1]);
    crate::chars::lemma_not_keyword(s, i, ALL@, 0);
    crate::chars::lemma_not_keyword(s, i, ANSWERED@, 0);
    crate::chars::lemma_not_keyword(s, i, BCC_SP@, 0);
    crate::chars::lemma_not_keyword(s, i, BEFORE_SP@, 0);
    crate::chars::lemma_not_keyword(s, i, BODY_SP@, 0);
    crate::chars::lemma_not_keyword(s, i, CC_SP@, 0);
    crate::chars::lemma_not_keyword(s, i, DELETED@, 0);
    crate::chars::lemma_not_keyword(s, i, FLAGGED@, 0);
    crate::chars::lemma_not_keyword(s, i, FROM_SP@, 0);
    crate::chars::lemma_not_keyword(s, i, KEYWORD_SP@, 0);
    crate::chars::lemma_not_keyword(s, i, NEW@, 0);
    crate::chars::lemma_not_keyword(s, i, OLD@, 0);
    crate::chars::lemma_not_keyword(s, i, ON_SP@, 0);
    crate::chars::lemma_not_keyword(s, i, RECENT@, 0);
    crate::chars::lemma_not_keyword(s, i, SEEN@, 0);
    crate::chars::lemma_not_keyword(s, i, SINCE_SP@, 0);
    crate::chars::lemma_not_keyword(s, i, SUBJECT_SP@, 0);
    crate::chars::lemma_not_keyword(s, i, TEXT_SP@, 1);
    crate::chars::lemma_not_keyword(s, i, TO_SP@, 1);
    crate::chars::lemma_not_keyword(s, i, EMAILID_SP@, 0);
    lemma_first_none(s, i);
    reveal(spec_key_simple_rest);
    lemma_after_keyword(s, i, THREADID_SP@, x);
    assert(s[i + 9 + x.len()] == s[e]);
    crate::objectid::lemma_objectid_round_trip(o, s, i + 9);
}

/// `UNANSWERED`, written at `i` and followed by a byte that may follow a
/// key, is read there, and no word tried before it is.
#[verifier::spinoff_prover]
proof fn lemma_read_unanswered(s: Seq<u8>, i: int)
    requires
        0 <= i,
        i + spec_write_search_key(SearchKeyV::Unanswered).len() < s.len(),
        s.subrange(i, i + spec_write_search_key(SearchKeyV::Unanswered).len()) == spec_write_search_key(SearchKeyV::Unanswered),
        follows_key(s[i + spec_write_search_key(SearchKeyV::Unanswered).len()]),
    ensures
        spec_key_simple_first(s, i) is None,
        spec_key_simple_rest(s, i) is None,
        spec_key_more(s, i) == Some((SearchKeyV::Unanswered, i + spec_write_search_key(SearchKeyV::Unanswered).len())),
{
    let w = UNANSWERED@;
    assert(spec_write_search_key(SearchKeyV::Unanswered) =~= w);
    let e = i + w.len();
    assert forall|q: int| 0 <= q < w.len() implies s[i + q] == #[trigger] w[q] by {
        assert(s[i + q] == s.subrange(i, e)[q]);
    }
    assert(s[i + 0] == w[0]);
    crate::chars::lemma_not_keyword(s, i, ALL@, 0);
    crate::chars::lemma_not_keyword(s, i, ANSWERED@, 0);
    crate::chars::lemma_not_keyword(s, i, BCC_SP@, 0);
    crate::chars::lemma_not_keyword(s, i, BEFORE_SP@, 0);
    crate::chars::lemma_not_keyword(s, i, BODY_SP@, 0);
    crate::chars::lemma_not_keyword(s, i, CC_SP@, 0);
    crate::chars::lemma_not_keyword(s, i, DELETED@, 0);
    crate::chars::lemma_not_keyword(s, i, FLAGGED@, 0);
    crate::chars::lemma_not_keyword(s, i, FROM_SP@, 0);
    crate::chars::lemma_not_keyword(s, i, KEYWORD_SP@, 0);
    crate::chars::lemma_not_keyword(s, i, NEW@, 0);
    crate::chars::lemma_not_keyword(s, i, OLD@, 0);
    crate::chars::lemma_not_keyword(s, i, ON_SP@, 0);
    crate::chars::lemma_not_keyword(s, i, RECENT@, 0);
    crate::chars::lemma_not_keyword(s, i, SEEN@, 0);
    crate::chars::lemma_not_keyword(s, i, SINCE_SP@, 0);
    crate::chars::lemma_not_keyword(s, i, SUBJECT_SP@, 0);
    crate::chars::lemma_not_keyword(s, i, TEXT_SP@, 0);
    crate::chars::lemma_not_keyword(s, i, TO_SP@, 0);
    crate::chars::lemma_not_keyword(s, i, EMAILID_SP@, 0);
    crate::chars::lemma_not_keyword(s, i, THREADID_SP@, 0);
    lemma_first_none(s, i);
    lemma_rest_none(s, i);
    reveal(spec_key_more);
    crate::chars::lemma_keyword_at(s, i, UNANSWERED@);
}

/// `UNDELETED`, written at `i` and followed by a byte that may follow a
/// key, is read there, and no word tried before it is.
#[verifier::spinoff_prover]
proof fn lemma_read_undeleted(s: Seq<u8>, i: int)
    requires
        0 <= i,
        i + spec_write_search_key(SearchKeyV::Undeleted).len() < s.len(),
        s.subrange(i, i + spec_write_search_key(SearchKeyV::Undeleted).len()) == spec_write_search_key(SearchKeyV::Undeleted),
        follows_key(s[i + spec_write_search_key(SearchKeyV::Undeleted).len()]),
    ensures
        spec_key_simple_first(s, i) is None,
        spec_key_simple_rest(s, i) is None,
        spec_key_more(s, i) == Some((SearchKeyV::Undeleted, i + spec_write_search_key(SearchKeyV::Undeleted).len())),
{
    let w = UNDELETED@;
    assert(spec_write_search_key(SearchKeyV::Undeleted) =~= w);
    let e = i + w.len();
    assert forall|q: int| 0 <= q < w.len() implies s[i + q] == #[trigger] w[q] by {
        assert(s[i + q] == s.subrange(i, e)[q]);
    }
    assert(s[i + 0] == w[0]);
    assert(s[i + 2] == w[2]);
    crate::chars::lemma_not_keyword(s, i, ALL@, 0);
    crate::chars::lemma_not_keyword(s, i, ANSWERED@, 0);
    crate::chars::lemma_not_keyword(s, i, BCC_SP@, 0);
    crate::chars::lemma_not_keyword(s, i, BEFORE_SP@, 0);
    crate::chars::lemma_not_keyword(s, i, BODY_SP@, 0);
    crate::chars::lemma_not_keyword(s, i, CC_SP@, 0);
    crate::chars::lemma_not_keyword(s, i, DELETED@, 0);
    crate::chars::lemma_not_keyword(s, i, FLAGGED@, 0);
    crate::chars::lemma_not_keyword(s, i, FROM_SP@, 0);
    crate::chars::lemma_not_keyword(s, i, KEYWORD_SP@, 0);
    crate::chars::lemma_not_keyword(s, i, NEW@, 0);
    crate::chars::lemma_not_keyword(s, i, OLD@, 0);
    crate::chars::lemma_not_keyword(s, i, ON_SP@, 0);
    crate::chars::lemma_not_keyword(s, i, RECENT@, 0);
    crate::chars::lemma_not_keyword(s, i, SEEN@, 0);
    crate::chars::lemma_not_keyword(s, i, SINCE_SP@, 0);
    crate::chars::lemma_not_keyword(s, i, SUBJECT_SP@, 0);
    crate::chars::lemma_not_keyword(s, i, TEXT_SP@, 0);
    crate::chars::lemma_not_keyword(s, i, TO_SP@, 0);
    crate::chars::lemma_not_keyword(s, i, EMAILID_SP@, 0);
    crate::chars::lemma_not_keyword(s, i, THREADID_SP@, 0);
    crate::chars::lemma_not_keyword(s, i, UNANSWERED@, 2);
    lemma_first_none(s, i);
    lemma_rest_none(s, i);
    reveal(spec_key_more);
    crate::chars::lemma_keyword_at(s, i, UNDELETED@);
}

/// `UNFLAGGED`, written at `i` and followed by a byte that may follow a
/// key, is read there, and no word tried before it is.
#[verifier::spinoff_prover]
proof fn lemma_read_unflagged(s: Seq<u8>, i: int)
    requires
        0 <= i,
        i + spec_write_search_key(SearchKeyV::Unflagged).len() < s.len(),
        s.subrange(i, i + spec_write_search_key(SearchKeyV::Unflagged).len()) == spec_write_search_key(SearchKeyV::Unflagged),
        follows_key(s[i + spec_write_search_key(SearchKeyV::Unflagged).len()]),
    ensures
        spec_key_simple_first(s, i) is None,
        spec_key_simple_rest(s, i) is None,
        spec_key_more(s, i) == Some((SearchKeyV::Unflagged, i + spec_write_search_key(SearchKeyV::Unflagged).len())),
{
    let w = UNFLAGGED@;
    assert(spec_write_search_key(SearchKeyV::Unflagged) =~= w);
    let e = i + w.len();
    assert forall|q: int| 0 <= q < w.len() implies s[i + q] == #[trigger] w[q] by {
        assert(s[i + q] == s.subrange(i, e)[q]);
    }
    assert(s[i + 0] == w[0]);
    assert(s[i + 2] == w[2]);
    crate::chars::lemma_not_keyword(s, i, ALL@, 0);
    crate::chars::lemma_not_keyword(s, i, ANSWERED@, 0);
    crate::chars::lemma_not_keyword(s, i, BCC_SP@, 0);
    crate::chars::lemma_not_keyword(s, i, BEFORE_SP@, 0);
    crate::chars::lemma_not_keyword(s, i, BODY_SP@, 0);
    crate::chars::lemma_not_keyword(s, i, CC_SP@, 0);
    crate::chars::lemma_not_keyword(s, i, DELETED@, 0);
    crate::chars::lemma_not_keyword(s, i, FLAGGED@, 0);
    crate::chars::lemma_not_keyword(s, i, FROM_SP@, 0);
    crate::chars::lemma_not_keyword(s, i, KEYWORD_SP@, 0);
    crate::chars::lemma_not_keyword(s, i, NEW@, 0);
    crate::chars::lemma_not_keyword(s, i, OLD@, 0);
    crate::chars::lemma_not_keyword(s, i, ON_SP@, 0);
    crate::chars::lemma_not_keyword(s, i, RECENT@, 0);
    crate::chars::lemma_not_keyword(s, i, SEEN@, 0);
    crate::chars::lemma_not_keyword(s, i, SINCE_SP@, 0);
    crate::chars::lemma_not_keyword(s, i, SUBJECT_SP@, 0);
    crate::chars::lemma_not_keyword(s, i, TEXT_SP@, 0);
    crate::chars::lemma_not_keyword(s, i, TO_SP@, 0);
    crate::chars::lemma_not_keyword(s, i, EMAILID_SP@, 0);
    crate::chars::lemma_not_keyword(s, i, THREADID_SP@, 0);
    crate::chars::lemma_not_keyword(s, i, UNANSWERED@, 2);
    crate::chars::lemma_not_keyword(s, i, UNDELETED@, 2);
    lemma_first_none(s, i);
    lemma_rest_none(s, i);
    reveal(spec_key_more);
    crate::chars::lemma_keyword_at(s, i, UNFLAGGED@);
}

/// `UNKEYWORD`, written at `i` and followed by a byte that may follow a
/// key, is read there, and no word tried before it is.
#[verifier::spinoff_prover]
proof fn lemma_read_unkeyword(a: Seq<u8>, s: Seq<u8>, i: int)
    requires
        0 <= i,
        writable_search_key(SearchKeyV::Unkeyword(a)),
        i + spec_write_search_key(SearchKeyV::Unkeyword(a)).len() < s.len(),
        s.subrange(i, i + spec_write_search_key(SearchKeyV::Unkeyword(a)).len()) == spec_write_search_key(SearchKeyV::Unkeyword(a)),
        follows_key(s[i + spec_write_search_key(SearchKeyV::Unkeyword(a)).len()]),
    ensures
        spec_key_simple_first(s, i) is None,
        spec_key_simple_rest(s, i) is None,
        spec_key_more(s, i) == Some((SearchKeyV::Unkeyword(a), i + spec_write_search_key(SearchKeyV::Unkeyword(a)).len())),
{
    let x = a;
    let w = UNKEYWORD_SP@ + x;
    assert(spec_write_search_key(SearchKeyV::Unkeyword(a)) =~= w);
    let e = i + w.len();
    assert forall|q: int| 0 <= q < w.len() implies s[i + q] == #[trigger] w[q] by {
        assert(s[i + q] == s.subrange(i, e)[q]);
    }
    assert(s[i + 0] == w[0]);
    assert(s[i + 2] == w[2]);
    crate::chars::lemma_not_keyword(s, i, ALL@, 0);
    crate::chars::lemma_not_keyword(s, i, ANSWERED@, 0);
    crate::chars::lemma_not_keyword(s, i, BCC_SP@, 0);
    crate::chars::lemma_not_keyword(s, i, BEFORE_SP@, 0);
    crate::chars::lemma_not_keyword(s, i, BODY_SP@, 0);
    crate::chars::lemma_not_keyword(s, i, CC_SP@, 0);
    crate::chars::lemma_not_keyword(s, i, DELETED@, 0);
    crate::chars::lemma_not_keyword(s, i, FLAGGED@, 0);
    crate::chars::lemma_not_keyword(s, i, FROM_SP@, 0);
    crate::chars::lemma_not_keyword(s, i, KEYWORD_SP@, 0);
    crate::chars::lemma_not_keyword(s, i, NEW@, 0);
    crate::chars::lemma_not_keyword(s, i, OLD@, 0);
    crate::chars::lemma_not_keyword(s, i, ON_SP@, 0);
    crate::chars::lemma_not_keyword(s, i, RECENT@, 0);
    crate::chars::lemma_not_keyword(s, i, SEEN@, 0);
    crate::chars::lemma_not_keyword(s, i, SINCE_SP@, 0);
    crate::chars::lemma_not_keyword(s, i, SUBJECT_SP@, 0);
    crate::chars::lemma_not_keyword(s, i, TEXT_SP@, 0);
    crate::chars::lemma_not_keyword(s, i, TO_SP@, 0);
    crate::chars::lemma_not_keyword(s, i, EMAILID_SP@, 0);
    crate::chars::lemma_not_keyword(s, i, THREADID_SP@, 0);
    crate::chars::lemma_not_keyword(s, i, UNANSWERED@, 2);
    crate::chars::lemma_not_keyword(s, i, UNDELETED@, 2);
    crate::chars::lemma_not_keyword(s, i, UNFLAGGED@, 2);
    lemma_first_none(s, i);
    lemma_rest_none(s, i);
    reveal(spec_key_more);
    lemma_after_keyword(s, i, UNKEYWORD_SP@, x);
    assert(s[i + 10 + x.len()] == s[e]);
    crate::strings::lemma_atom_round_trip(a, s, i + 10);
}

/// `UNSEEN`, written at `i` and followed by a byte that may follow a
/// key, is read there, and no word tried before it is.
#[verifier::spinoff_prover]
proof fn lemma_read_unseen(s: Seq<u8>, i: int)
    requires
        0 <= i,
        i + spec_write_search_key(SearchKeyV::Unseen).len() < s.len(),
        s.subrange(i, i + spec_write_search_key(SearchKeyV::Unseen).len()) == spec_write_search_key(SearchKeyV::Unseen),
        follows_key(s[i + spec_write_search_key(SearchKeyV::Unseen).len()]),
    ensures
        spec_key_simple_first(s, i) is None,
        spec_key_simple_rest(s, i) is None,
        spec_key_more(s, i) == Some((SearchKeyV::Unseen, i + spec_write_search_key(SearchKeyV::Unseen).len())),
{
    let w = UNSEEN@;
    assert(spec_write_search_key(SearchKeyV::Unseen) =~= w);
    let e = i + w.len();
    assert forall|q: int| 0 <= q < w.len() implies s[i + q] == #[trigger] w[q] by {
        assert(s[i + q] == s.subrange(i, e)[q]);
    }
    assert(s[i + 0] == w[0]);
    assert(s[i + 2] == w[2]);
    crate::chars::lemma_not_keyword(s, i, ALL@, 0);
    crate::chars::lemma_not_keyword(s, i, ANSWERED@, 0);
    crate::chars::lemma_not_keyword(s, i, BCC_SP@, 0);
    crate::chars::lemma_not_keyword(s, i, BEFORE_SP@, 0);
    crate::chars::lemma_not_keyword(s, i, BODY_SP@, 0);
    crate::chars::lemma_not_keyword(s, i, CC_SP@, 0);
    crate::chars::lemma_not_keyword(s, i, DELETED@, 0);
    crate::chars::lemma_not_keyword(s, i, FLAGGED@, 0);
    crate::chars::lemma_not_keyword(s, i, FROM_SP@, 0);
    crate::chars::lemma_not_keyword(s, i, KEYWORD_SP@, 0);
    crate::chars::lemma_not_keyword(s, i, NEW@, 0);
    crate::chars::lemma_not_keyword(s, i, OLD@, 0);
    crate::chars::lemma_not_keyword(s, i, ON_SP@, 0);
    crate::chars::lemma_not_keyword(s, i, RECENT@, 0);
    crate::chars::lemma_not_keyword(s, i, SEEN@, 0);
    crate::chars::lemma_not_keyword(s, i, SINCE_SP@, 0);
    crate::chars::lemma_not_keyword(s, i, SUBJECT_SP@, 0);
    crate::chars::lemma_not_keyword(s, i, TEXT_SP@, 0);
    crate::chars::lemma_not_keyword(s, i, TO_SP@, 0);
    crate::chars::lemma_not_keyword(s, i, EMAILID_SP@, 0);
    crate::chars::lemma_not_keyword(s, i, THREADID_SP@, 0);
    crate::chars::lemma_not_keyword(s, i, UNANSWERED@, 2);
    crate::chars::lemma_not_keyword(s, i, UNDELETED@, 2);
    crate::chars::lemma_not_keyword(s, i, UNFLAGGED@, 2);
    crate::chars::lemma_not_keyword(s, i, UNKEYWORD_SP@, 2);
    lemma_first_none(s, i);
    lemma_rest_none(s, i);
    reveal(spec_key_more);
    crate::chars::lemma_keyword_at(s, i, UNSEEN@);
}

/// `DRAFT`, written at `i` and followed by a byte that may follow a
/// key, is read there, and no word tried before it is.
#[verifier::spinoff_prover]
proof fn lemma_read_draft(s: Seq<u8>, i: int)
    requires
        0 <= i,
        i + spec_write_search_key(SearchKeyV::Draft).len() < s.len(),
        s.subrange(i, i + spec_write_search_key(SearchKeyV::Draft).len()) == spec_write_search_key(SearchKeyV::Draft),
        follows_key(s[i + spec_write_search_key(SearchKeyV::Draft).len()]),
    ensures
        spec_key_simple_first(s, i) is None,
        spec_key_simple_rest(s, i) is None,
        spec_key_more(s, i) == Some((SearchKeyV::Draft, i + spec_write_search_key(SearchKeyV::Draft).len())),
{
    let w = DRAFT@;
    assert(spec_write_search_key(SearchKeyV::Draft) =~= w);
    let e = i + w.len();
    assert forall|q: int| 0 <= q < w.len() implies s[i + q] == #[trigger] w[q] by {
        assert(s[i + q] == s.subrange(i, e)[q]);
    }
    assert(s[i + 0] == w[0]);
    assert(s[i + 1] == w[1]);
    crate::chars::lemma_not_keyword(s, i, ALL@, 0);
    crate::chars::lemma_not_keyword(s, i, ANSWERED@, 0);
    crate::chars::lemma_not_keyword(s, i, BCC_SP@, 0);
    crate::chars::lemma_not_keyword(s, i, BEFORE_SP@, 0);
    crate::chars::lemma_not_keyword(s, i, BODY_SP@, 0);
    crate::chars::lemma_not_keyword(s, i, CC_SP@, 0);
    crate::chars::lemma_not_keyword(s, i, DELETED@, 1);
    crate::chars::lemma_not_keyword(s, i, FLAGGED@, 0);
    crate::chars::lemma_not_keyword(s, i, FROM_SP@, 0);
    crate::chars::lemma_not_keyword(s, i, KEYWORD_SP@, 0);
    crate::chars::lemma_not_keyword(s, i, NEW@, 0);
    crate::chars::lemma_not_keyword(s, i, OLD@, 0);
    crate::chars::lemma_not_keyword(s, i, ON_SP@, 0);
    crate::chars::lemma_not_keyword(s, i, RECENT@, 0);
    crate::chars::lemma_not_keyword(s, i, SEEN@, 0);
    crate::chars::lemma_not_keyword(s, i, SINCE_SP@, 0);
    crate::chars::lemma_not_keyword(s, i, SUBJECT_SP@, 0);
    crate::chars::lemma_not_keyword(s, i, TEXT_SP@, 0);
    crate::chars::lemma_not_keyword(s, i, TO_SP@, 0);
    crate::chars::lemma_not_keyword(s, i, EMAILID_SP@, 0);
    crate::chars::lemma_not_keyword(s, i, THREADID_SP@, 0);
    crate::chars::lemma_not_keyword(s, i, UNANSWERED@, 0);
    crate::chars::lemma_not_keyword(s, i, UNDELETED@, 0);
    crate::chars::lemma_not_keyword(s, i, UNFLAGGED@, 0);
    crate::chars::lemma_not_keyword(s, i, UNKEYWORD_SP@, 0);
    crate::chars::lemma_not_keyword(s, i, UNSEEN@, 0);
    lemma_first_none(s, i);
    lemma_rest_none(s, i);
    reveal(spec_key_more);
    crate::chars::lemma_keyword_at(s, i, DRAFT@);
}

/// `HEADER`, written at `i` and followed by a byte that may follow a
/// key, is read there, and no word tried before it is.
#[verifier::spinoff_prover]
proof fn lemma_read_header(a: StrV, b: StrV, s: Seq<u8>, i: int)
    requires
        0 <= i,
        writable_search_key(SearchKeyV::Header(a, b)),
        i + spec_write_search_key(SearchKeyV::Header(a, b)).len() < s.len(),
        s.subrange(i, i + spec_write_search_key(SearchKeyV::Header(a, b)).len()) == spec_write_search_key(SearchKeyV::Header(a, b)),
        follows_key(s[i + spec_write_search_key(SearchKeyV::Header(a, b)).len()]),
    ensures
        spec_key_simple_first(s, i) is None,
        spec_key_simple_rest(s, i) is None,
        spec_key_more(s, i) == Some((SearchKeyV::Header(a, b), i + spec_write_search_key(SearchKeyV::Header(a, b)).len())),
{
    let x = spec_write_str(a) + (seq![SP] + spec_write_str(b));
    let w = HEADER_SP@ + x;
    assert(spec_write_search_key(SearchKeyV::Header(a, b)) =~= w);
    let e = i + w.len();
    assert forall|q: int| 0 <= q < w.len() implies s[i + q] == #[trigger] w[q] by {
        assert(s[i + q] == s.subrange(i, e)[q]);
    }
    assert(s[i + 0] == w[0]);
    crate::chars::lemma_not_keyword(s, i, ALL@, 0);
    crate::chars::lemma_not_keyword(s, i, ANSWERED@, 0);
    crate::chars::lemma_not_keyword(s, i, BCC_SP@, 0);
    crate::chars::lemma_not_keyword(s, i, BEFORE_SP@, 0);
    crate::chars::lemma_not_keyword(s, i, BODY_SP@, 0);
    crate::chars::lemma_not_keyword(s, i, CC_SP@, 0);
    crate::chars::lemma_not_keyword(s, i, DELETED@, 0);
    crate::chars::lemma_not_keyword(s, i, FLAGGED@, 0);
    crate::chars::lemma_not_keyword(s, i, FROM_SP@, 0);
    crate::chars::lemma_not_keyword(s, i, KEYWORD_SP@, 0);
    crate::chars::lemma_not_keyword(s, i, NEW@, 0);
    crate::chars::lemma_not_keyword(s, i, OLD@, 0);
    crate::chars::lemma_not_keyword(s, i, ON_SP@, 0);
    crate::chars::lemma_not_keyword(s, i, RECENT@, 0);
    crate::chars::lemma_not_keyword(s, i, SEEN@, 0);
    crate::chars::lemma_not_keyword(s, i, SINCE_SP@, 0);
    crate::chars::lemma_not_keyword(s, i, SUBJECT_SP@, 0);
    crate::chars::lemma_not_keyword(s, i, TEXT_SP@, 0);
    crate::chars::lemma_not_keyword(s, i, TO_SP@, 0);
    crate::chars::lemma_not_keyword(s, i, EMAILID_SP@, 0);
    crate::chars::lemma_not_keyword(s, i, THREADID_SP@, 0);
    crate::chars::lemma_not_keyword(s, i, UNANSWERED@, 0);
    crate::chars::lemma_not_keyword(s, i, UNDELETED@, 0);
    crate::chars::lemma_not_keyword(s, i, UNFLAGGED@, 0);
    crate::chars::lemma_not_keyword(s, i, UNKEYWORD_SP@, 0);
    crate::chars::lemma_not_keyword(s, i, UNSEEN@, 0);
    crate::chars::lemma_not_keyword(s, i, DRAFT@, 0);
    lemma_first_none(s, i);
    lemma_rest_none(s, i);
    reveal(spec_key_more);
    lemma_after_keyword(s, i, HEADER_SP@, x);
    assert(s[i + 7 + x.len()] == s[e]);
    let wa = spec_write_str(a);
    lemma_after_keyword(s, i + 7, wa, seq![SP] + spec_write_str(b));
    assert(s[i + 7 + wa.len()] == s.subrange(i + 7 + wa.len(), i + 7 + x.len())[0]);
    crate::strings::lemma_astring_round_trip(a, s, i + 7);
    lemma_after_keyword(s, i + 7 + wa.len(), seq![SP], spec_write_str(b));
    crate::strings::lemma_astring_round_trip(b, s, i + 7 + wa.len() + 1);
}

/// `LARGER`, written at `i` and followed by a byte that may follow a
/// key, is read there, and no word tried before it is.
#[verifier::spinoff_prover]
proof fn lemma_read_larger(n: u32, s: Seq<u8>, i: int)
    requires
        0 <= i,
        i + spec_write_search_key(SearchKeyV::Larger(n)).len() < s.len(),
        s.subrange(i, i + spec_write_search_key(SearchKeyV::Larger(n)).len()) == spec_write_search_key(SearchKeyV::Larger(n)),
        follows_key(s[i + spec_write_search_key(SearchKeyV::Larger(n)).len()]),
    ensures
        spec_key_simple_first(s, i) is None,
        spec_key_simple_rest(s, i) is None,
        spec_key_more(s, i) == Some((SearchKeyV::Larger(n), i + spec_write_search_key(SearchKeyV::Larger(n)).len())),
{
    let x = decimal(n as nat);
    let w = LARGER_SP@ + x;
    assert(spec_write_search_key(SearchKeyV::Larger(n)) =~= w);
    let e = i + w.len();
    assert forall|q: int| 0 <= q < w.len() implies s[i + q] == #[trigger] w[q] by {
        assert(s[i + q] == s.subrange(i, e)[q]);
    }
    assert(s[i + 0] == w[0]);
    crate::chars::lemma_not_keyword(s, i, ALL@, 0);
    crate::chars::lemma_not_keyword(s, i, ANSWERED@, 0);
    crate::chars::lemma_not_keyword(s, i, BCC_SP@, 0);
    crate::chars::lemma_not_keyword(s, i, BEFORE_SP@, 0);
    crate::chars::lemma_not_keyword(s, i, BODY_SP@, 0);
    crate::chars::lemma_not_keyword(s, i, CC_SP@, 0);
    crate::chars::lemma_not_keyword(s, i, DELETED@, 0);
    crate::chars::lemma_not_keyword(s, i, FLAGGED@, 0);
    crate::chars::lemma_not_keyword(s, i, FROM_SP@, 0);
    crate::chars::lemma_not_keyword(s, i, KEYWORD_SP@, 0);
    crate::chars::lemma_not_keyword(s, i, NEW@, 0);
    crate::chars::lemma_not_keyword(s, i, OLD@, 0);
    crate::chars::lemma_not_keyword(s, i, ON_SP@, 0);
    crate::chars::lemma_not_keyword(s, i, RECENT@, 0);
    crate::chars::lemma_not_keyword(s, i, SEEN@, 0);
    crate::chars::lemma_not_keyword(s, i, SINCE_SP@, 0);
    crate::chars::lemma_not_keyword(s, i, SUBJECT_SP@, 0);
    crate::chars::lemma_not_keyword(s, i, TEXT_SP@, 0);
    crate::chars::lemma_not_keyword(s, i, TO_SP@, 0);
    crate::chars::lemma_not_keyword(s, i, EMAILID_SP@, 0);
    crate::chars::lemma_not_keyword(s, i, THREADID_SP@, 0);
    crate::chars::lemma_not_keyword(s, i, UNANSWERED@, 0);
    crate::chars::lemma_not_keyword(s, i, UNDELETED@, 0);
    crate::chars::lemma_not_keyword(s, i, UNFLAGGED@, 0);
    crate::chars::lemma_not_keyword(s, i, UNKEYWORD_SP@, 0);
    crate::chars::lemma_not_keyword(s, i, UNSEEN@, 0);
    crate::chars::lemma_not_keyword(s, i, DRAFT@, 0);
    crate::chars::lemma_not_keyword(s, i, HEADER_SP@, 0);
    lemma_first_none(s, i);
    lemma_rest_none(s, i);
    reveal(spec_key_more);
    lemma_after_keyword(s, i, LARGER_SP@, x);
    assert(s[i + 7 + x.len()] == s[e]);
    crate::num::lemma_number_round_trip(n, s, i + 7);
}

/// `SENTBEFORE`, written at `i` and followed by a byte that may follow a
/// key, is read there, and no word tried before it is.
#[verifier::spinoff_prover]
proof fn lemma_read_sent_before(dt: (u16, u8, u8), s: Seq<u8>, i: int)
    requires
        0 <= i,
        writable_search_key(SearchKeyV::SentBefore(dt)),
        i + spec_write_search_key(SearchKeyV::SentBefore(dt)).len() < s.len(),
        s.subrange(i, i + spec_write_search_key(SearchKeyV::SentBefore(dt)).len()) == spec_write_search_key(SearchKeyV::SentBefore(dt)),
        follows_key(s[i + spec_write_search_key(SearchKeyV::SentBefore(dt)).len()]),
    ensures
        spec_key_simple_first(s, i) is None,
        spec_key_simple_rest(s, i) is None,
        spec_key_more(s, i) is None,
        !spec_keyword(s, i, NOT_SP@),
        !spec_keyword(s, i, OR_SP@),
        spec_key_late(s, i) == Some((SearchKeyV::SentBefore(dt), i + spec_write_search_key(SearchKeyV::SentBefore(dt)).len())),
{
    let x = crate::date::spec_write_date(dt);
    let w = SENTBEFORE_SP@ + x;
    assert(spec_write_search_key(SearchKeyV::SentBefore(dt)) =~= w);
    let e = i + w.len();
    assert forall|q: int| 0 <= q < w.len() implies s[i + q] == #[trigger] w[q] by {
        assert(s[i + q] == s.subrange(i, e)[q]);
    }
    assert(s[i + 0] == w[0]);
    assert(s[i + 1] == w[1]);
    assert(s[i + 2] == w[2]);
    crate::chars::lemma_not_keyword(s, i, ALL@, 0);
    crate::chars::lemma_not_keyword(s, i, ANSWERED@, 0);
    crate::chars::lemma_not_keyword(s, i, BCC_SP@, 0);
    crate::chars::lemma_not_keyword(s, i, BEFORE_SP@, 0);
    crate::chars::lemma_not_keyword(s, i, BODY_SP@, 0);
    crate::chars::lemma_not_keyword(s, i, CC_SP@, 0);
    crate::chars::lemma_not_keyword(s, i, DELETED@, 0);
    crate::chars::lemma_not_keyword(s, i, FLAGGED@, 0);
    crate::chars::lemma_not_keyword(s, i, FROM_SP@, 0);
    crate::chars::lemma_not_keyword(s, i, KEYWORD_SP@, 0);
    crate::chars::lemma_not_keyword(s, i, NEW@, 0);
    crate::chars::lemma_not_keyword(s, i, OLD@, 0);
    crate::chars::lemma_not_keyword(s, i, ON_SP@, 0);
    crate::chars::lemma_not_keyword(s, i, RECENT@, 0);
    crate::chars::lemma_not_keyword(s, i, SEEN@, 2);
    crate::chars::lemma_not_keyword(s, i, SINCE_SP@, 1);
    crate::chars::lemma_not_keyword(s, i, SUBJECT_SP@, 1);
    crate::chars::lemma_not_keyword(s, i, TEXT_SP@, 0);
    crate::chars::lemma_not_keyword(s, i, TO_SP@, 0);
    crate::chars::lemma_not_keyword(s, i, EMAILID_SP@, 0);
    crate::chars::lemma_not_keyword(s, i, THREADID_SP@, 0);
    crate::chars::lemma_not_keyword(s, i, UNANSWERED@, 0);
    crate::chars::lemma_not_keyword(s, i, UNDELETED@, 0);
    crate::chars::lemma_not_keyword(s, i, UNFLAGGED@, 0);
    crate::chars::lemma_not_keyword(s, i, UNKEYWORD_SP@, 0);
    crate::chars::lemma_not_keyword(s, i, UNSEEN@, 0);
    crate::chars::lemma_not_keyword(s, i, DRAFT@, 0);
    crate::chars::lemma_not_keyword(s, i, HEADER_SP@, 0);
    crate::chars::lemma_not_keyword(s, i, LARGER_SP@, 0);
    crate::chars::lemma_not_keyword(s, i, NOT_SP@, 0);
    crate::chars::lemma_not_keyword(s, i, OR_SP@, 0);
    lemma_first_none(s, i);
    lemma_rest_none(s, i);
    lemma_more_none(s, i);
    reveal(spec_key_late);
    lemma_after_keyword(s, i, SENTBEFORE_SP@, x);
    assert(s[i + 11 + x.len()] == s[e]);
    crate::date::lemma_date_round_trip(dt, s, i + 11);
}

/// `SENTON`, written at `i` and followed by a byte that may follow a
/// key, is read there, and no word tried before it is.
#[verifier::spinoff_prover]
proof fn lemma_read_sent_on(dt: (u16, u8, u8), s: Seq<u8>, i: int)
    requires
        0 <= i,
        writable_search_key(SearchKeyV::SentOn(dt)),
        i + spec_write_search_key(SearchKeyV::SentOn(dt)).len() < s.len(),
        s.subrange(i, i + spec_write_search_key(SearchKeyV::SentOn(dt)).len()) == spec_write_search_key(SearchKeyV::SentOn(dt)),
        follows_key(s[i + spec_write_search_key(SearchKeyV::SentOn(dt)).len()]),
    ensures
        spec_key_simple_first(s, i) is None,
        spec_key_simple_rest(s, i) is None,
        spec_key_more(s, i) is None,
        !spec_keyword(s, i, NOT_SP@),
        !spec_keyword(s, i, OR_SP@),
        spec_key_late(s, i) == Some((SearchKeyV::SentOn(dt), i + spec_write_search_key(SearchKeyV::SentOn(dt)).len())),
{
    let x = crate::date::spec_write_date(dt);
    let w = SENTON_SP@ + x;
    assert(spec_write_search_key(SearchKeyV::SentOn(dt)) =~= w);
    let e = i + w.len();
    assert forall|q: int| 0 <= q < w.len() implies s[i + q] == #[trigger] w[q] by {
        assert(s[i + q] == s.subrange(i, e)[q]);
    }
    assert(s[i + 0] == w[0]);
    assert(s[i + 1] == w[1]);
    assert(s[i + 2] == w[2]);
    assert(s[i + 4] == w[4]);
    crate::chars::lemma_not_keyword(s, i, ALL@, 0);
    crate::chars::lemma_not_keyword(s, i, ANSWERED@, 0);
    crate::chars::lemma_not_keyword(s, i, BCC_SP@, 0);
    crate::chars::lemma_not_keyword(s, i, BEFORE_SP@, 0);
    crate::chars::lemma_not_keyword(s, i, BODY_SP@, 0);
    crate::chars::lemma_not_keyword(s, i, CC_SP@, 0);
    crate::chars::lemma_not_keyword(s, i, DELETED@, 0);
    crate::chars::lemma_not_keyword(s, i, FLAGGED@, 0);
    crate::chars::lemma_not_keyword(s, i, FROM_SP@, 0);
    crate::chars::lemma_not_keyword(s, i, KEYWORD_SP@, 0);
    crate::chars::lemma_not_keyword(s, i, NEW@, 0);
    crate::chars::lemma_not_keyword(s, i, OLD@, 0);
    crate::chars::lemma_not_keyword(s, i, ON_SP@, 0);
    crate::chars::lemma_not_keyword(s, i, RECENT@, 0);
    crate::chars::lemma_not_keyword(s, i, SEEN@, 2);
    crate::chars::lemma_not_keyword(s, i, SINCE_SP@, 1);
    crate::chars::lemma_not_keyword(s, i, SUBJECT_SP@, 1);
    crate::chars::lemma_not_keyword(s, i, TEXT_SP@, 0);
    crate::chars::lemma_not_keyword(s, i, TO_SP@, 0);
    crate::chars::lemma_not_keyword(s, i, EMAILID_SP@, 0);
    crate::chars::lemma_not_keyword(s, i, THREADID_SP@, 0);
    crate::chars::lemma_not_keyword(s, i, UNANSWERED@, 0);
    crate::chars::lemma_not_keyword(s, i, UNDELETED@, 0);
    crate::chars::lemma_not_keyword(s, i, UNFLAGGED@, 0);
    crate::chars::lemma_not_keyword(s, i, UNKEYWORD_SP@, 0);
    crate::chars::lemma_not_keyword(s, i, UNSEEN@, 0);
    crate::chars::lemma_not_keyword(s, i, DRAFT@, 0);
    crate::chars::lemma_not_keyword(s, i, HEADER_SP@, 0);
    crate::chars::lemma_not_keyword(s, i, LARGER_SP@, 0);
    crate::chars::lemma_not_keyword(s, i, NOT_SP@, 0);
    crate::chars::lemma_not_keyword(s, i, OR_SP@, 0);
    crate::chars::lemma_not_keyword(s, i, SENTBEFORE_SP@, 4);
    lemma_first_none(s, i);
    lemma_rest_none(s, i);
    lemma_more_none(s, i);
    reveal(spec_key_late);
    lemma_after_keyword(s, i, SENTON_SP@, x);
    assert(s[i + 7 + x.len()] == s[e]);
    crate::date::lemma_date_round_trip(dt, s, i + 7);
}

/// `SENTSINCE`, written at `i` and followed by a byte that may follow a
/// key, is read there, and no word tried before it is.
#[verifier::spinoff_prover]
proof fn lemma_read_sent_since(dt: (u16, u8, u8), s: Seq<u8>, i: int)
    requires
        0 <= i,
        writable_search_key(SearchKeyV::SentSince(dt)),
        i + spec_write_search_key(SearchKeyV::SentSince(dt)).len() < s.len(),
        s.subrange(i, i + spec_write_search_key(SearchKeyV::SentSince(dt)).len()) == spec_write_search_key(SearchKeyV::SentSince(dt)),
        follows_key(s[i + spec_write_search_key(SearchKeyV::SentSince(dt)).len()]),
    ensures
        spec_key_simple_first(s, i) is None,
        spec_key_simple_rest(s, i) is None,
        spec_key_more(s, i) is None,
        !spec_keyword(s, i, NOT_SP@),
        !spec_keyword(s, i, OR_SP@),
        spec_key_late(s, i) == Some((SearchKeyV::SentSince(dt), i + spec_write_search_key(SearchKeyV::SentSince(dt)).len())),
{
    let x = crate::date::spec_write_date(dt);
    let w = SENTSINCE_SP@ + x;
    assert(spec_write_search_key(SearchKeyV::SentSince(dt)) =~= w);
    let e = i + w.len();
    assert forall|q: int| 0 <= q < w.len() implies s[i + q] == #[trigger] w[q] by {
        assert(s[i + q] == s.subrange(i, e)[q]);
    }
    assert(s[i + 0] == w[0]);
    assert(s[i + 1] == w[1]);
    assert(s[i + 2] == w[2]);
    assert(s[i + 4] == w[4]);
    crate::chars::lemma_not_keyword(s, i, ALL@, 0);
    crate::chars::lemma_not_keyword(s, i, ANSWERED@, 0);
    crate::chars::lemma_not_keyword(s, i, BCC_SP@, 0);
    crate::chars::lemma_not_keyword(s, i, BEFORE_SP@, 0);
    crate::chars::lemma_not_keyword(s, i, BODY_SP@, 0);
    crate::chars::lemma_not_keyword(s, i, CC_SP@, 0);
    crate::chars::lemma_not_keyword(s, i, DELETED@, 0);
    crate::chars::lemma_not_keyword(s, i, FLAGGED@, 0);
    crate::chars::lemma_not_keyword(s, i, FROM_SP@, 0);
    crate::chars::lemma_not_keyword(s, i, KEYWORD_SP@, 0);
    crate::chars::lemma_not_keyword(s, i, NEW@, 0);
    crate::chars::lemma_not_keyword(s, i, OLD@, 0);
    crate::chars::lemma_not_keyword(s, i, ON_SP@, 0);
    crate::chars::lemma_not_keyword(s, i, RECENT@, 0);
    crate::chars::lemma_not_keyword(s, i, SEEN@, 2);
    crate::chars::lemma_not_keyword(s, i, SINCE_SP@, 1);
    crate::chars::lemma_not_keyword(s, i, SUBJECT_SP@, 1);
    crate::chars::lemma_not_keyword(s, i, TEXT_SP@, 0);
    crate::chars::lemma_not_keyword(s, i, TO_SP@, 0);
    crate::chars::lemma_not_keyword(s, i, EMAILID_SP@, 0);
    crate::chars::lemma_not_keyword(s, i, THREADID_SP@, 0);
    crate::chars::lemma_not_keyword(s, i, UNANSWERED@, 0);
    crate::chars::lemma_not_keyword(s, i, UNDELETED@, 0);
    crate::chars::lemma_not_keyword(s, i, UNFLAGGED@, 0);
    crate::chars::lemma_not_keyword(s, i, UNKEYWORD_SP@, 0);
    crate::chars::lemma_not_keyword(s, i, UNSEEN@, 0);
    crate::chars::lemma_not_keyword(s, i, DRAFT@, 0);
    crate::chars::lemma_not_keyword(s, i, HEADER_SP@, 0);
    crate::chars::lemma_not_keyword(s, i, LARGER_SP@, 0);
    crate::chars::lemma_not_keyword(s, i, NOT_SP@, 0);
    crate::chars::lemma_not_keyword(s, i, OR_SP@, 0);
    crate::chars::lemma_not_keyword(s, i, SENTBEFORE_SP@, 4);
    crate::chars::lemma_not_keyword(s, i, SENTON_SP@, 4);
    lemma_first_none(s, i);
    lemma_rest_none(s, i);
    lemma_more_none(s, i);
    reveal(spec_key_late);
    lemma_after_keyword(s, i, SENTSINCE_SP@, x);
    assert(s[i + 10 + x.len()] == s[e]);
    crate::date::lemma_date_round_trip(dt, s, i + 10);
}

/// `SMALLER`, written at `i` and followed by a byte that may follow a
/// key, is read there, and no word tried before it is.
#[verifier::spinoff_prover]
proof fn lemma_read_smaller(n: u32, s: Seq<u8>, i: int)
    requires
        0 <= i,
        i + spec_write_search_key(SearchKeyV::Smaller(n)).len() < s.len(),
        s.subrange(i, i + spec_write_search_key(SearchKeyV::Smaller(n)).len()) == spec_write_search_key(SearchKeyV::Smaller(n)),
        follows_key(s[i + spec_write_search_key(SearchKeyV::Smaller(n)).len()]),
    ensures
        spec_key_simple_first(s, i) is None,
        spec_key_simple_rest(s, i) is None,
        spec_key_more(s, i) is None,
        !spec_keyword(s, i, NOT_SP@),
        !spec_keyword(s, i, OR_SP@),
        spec_key_late(s, i) == Some((SearchKeyV::Smaller(n), i + spec_write_search_key(SearchKeyV::Smaller(n)).len())),
{
    let x = decimal(n as nat);
    let w = SMALLER_SP@ + x;
    assert(spec_write_search_key(SearchKeyV::Smaller(n)) =~= w);
    let e = i + w.len();
    assert forall|q: int| 0 <= q < w.len() implies s[i + q] == #[trigger] w[q] by {
        assert(s[i + q] == s.subrange(i, e)[q]);
    }
    assert(s[i + 0] == w[0]);
    assert(s[i + 1] == w[1]);
    crate::chars::lemma_not_keyword(s, i, ALL@, 0);
    crate::chars::lemma_not_keyword(s, i, ANSWERED@, 0);
    crate::chars::lemma_not_keyword(s, i, BCC_SP@, 0);
    crate::chars::lemma_not_keyword(s, i, BEFORE_SP@, 0);
    crate::chars::lemma_not_keyword(s, i, BODY_SP@, 0);
    crate::chars::lemma_not_keyword(s, i, CC_SP@, 0);
    crate::chars::lemma_not_keyword(s, i, DELETED@, 0);
    crate::chars::lemma_not_keyword(s, i, FLAGGED@, 0);
    crate::chars::lemma_not_keyword(s, i, FROM_SP@, 0);
    crate::chars::lemma_not_keyword(s, i, KEYWORD_SP@, 0);
    crate::chars::lemma_not_keyword(s, i, NEW@, 0);
    crate::chars::lemma_not_keyword(s, i, OLD@, 0);
    crate::chars::lemma_not_keyword(s, i, ON_SP@, 0);
    crate::chars::lemma_not_keyword(s, i, RECENT@, 0);
    crate::chars::lemma_not_keyword(s, i, SEEN@, 1);
    crate::chars::lemma_not_keyword(s, i, SINCE_SP@, 1);
    crate::chars::lemma_not_keyword(s, i, SUBJECT_SP@, 1);
    crate::chars::lemma_not_keyword(s, i, TEXT_SP@, 0);
    crate::chars::lemma_not_keyword(s, i, TO_SP@, 0);
    crate::chars::lemma_not_keyword(s, i, EMAILID_SP@, 0);
    crate::chars::lemma_not_keyword(s, i, THREADID_SP@, 0);
    crate::chars::lemma_not_keyword(s, i, UNANSWERED@, 0);
    crate::chars::lemma_not_keyword(s, i, UNDELETED@, 0);
    crate::chars::lemma_not_keyword(s, i, UNFLAGGED@, 0);
    crate::chars::lemma_not_keyword(s, i, UNKEYWORD_SP@, 0);
    crate::chars::lemma_not_keyword(s, i, UNSEEN@, 0);
    crate::chars::lemma_not_keyword(s, i, DRAFT@, 0);
    crate::chars::lemma_not_keyword(s, i, HEADER_SP@, 0);
    crate::chars::lemma_not_keyword(s, i, LARGER_SP@, 0);
    crate::chars::lemma_not_keyword(s, i, NOT_SP@, 0);
    crate::chars::lemma_not_keyword(s, i, OR_SP@, 0);
    crate::chars::lemma_not_keyword(s, i, SENTBEFORE_SP@, 1);
    crate::chars::lemma_not_keyword(s, i, SENTON_SP@, 1);
    crate::chars::lemma_not_keyword(s, i, SENTSINCE_SP@, 1);
    lemma_first_none(s, i);
    lemma_rest_none(s, i);
    lemma_more_none(s, i);
    reveal(spec_key_late);
    lemma_after_keyword(s, i, SMALLER_SP@, x);
    assert(s[i + 8 + x.len()] == s[e]);
    crate::num::lemma_number_round_trip(n, s, i + 8);
}

/// `UID`, written at `i` and followed by a byte that may follow a
/// key, is read there, and no word tried before it is.
#[verifier::spinoff_prover]
proof fn lemma_read_uid(q: Option<Seq<SequenceV>>, s: Seq<u8>, i: int)
    requires
        0 <= i,
        writable_search_key(SearchKeyV::Uid(q)),
        i + spec_write_search_key(SearchKeyV::Uid(q)).len() < s.len(),
        s.subrange(i, i + spec_write_search_key(SearchKeyV::Uid(q)).len()) == spec_write_search_key(SearchKeyV::Uid(q)),
        follows_key(s[i + spec_write_search_key(SearchKeyV::Uid(q)).len()]),
    ensures
        spec_key_simple_first(s, i) is None,
        spec_key_simple_rest(s, i) is None,
        spec_key_more(s, i) is None,
        !spec_keyword(s, i, NOT_SP@),
        !spec_keyword(s, i, OR_SP@),
        spec_key_late(s, i) == Some((SearchKeyV::Uid(q), i + spec_write_search_key(SearchKeyV::Uid(q)).len())),
{
    let x = spec_write_sequence_set_or_saved(q);
    let w = UID_SP@ + x;
    assert(spec_write_search_key(SearchKeyV::Uid(q)) =~= w);
    let e = i + w.len();
    assert forall|q: int| 0 <= q < w.len() implies s[i + q] == #[trigger] w[q] by {
        assert(s[i + q] == s.subrange(i, e)[q]);
    }
    assert(s[i + 0] == w[0]);
    assert(s[i + 1] == w[1]);
    crate::chars::lemma_not_keyword(s, i, ALL@, 0);
    crate::chars::lemma_not_keyword(s, i, ANSWERED@, 0);
    crate::chars::lemma_not_keyword(s, i, BCC_SP@, 0);
    crate::chars::lemma_not_keyword(s, i, BEFORE_SP@, 0);
    crate::chars::lemma_not_keyword(s, i, BODY_SP@, 0);
    crate::chars::lemma_not_keyword(s, i, CC_SP@, 0);
    crate::chars::lemma_not_keyword(s, i, DELETED@, 0);
    crate::chars::lemma_not_keyword(s, i, FLAGGED@, 0);
    crate::chars::lemma_not_keyword(s, i, FROM_SP@, 0);
    crate::chars::lemma_not_keyword(s, i, KEYWORD_SP@, 0);
    crate::chars::lemma_not_keyword(s, i, NEW@, 0);
    crate::chars::lemma_not_keyword(s, i, OLD@, 0);
    crate::chars::lemma_not_keyword(s, i, ON_SP@, 0);
    crate::chars::lemma_not_keyword(s, i, RECENT@, 0);
    crate::chars::lemma_not_keyword(s, i, SEEN@, 0);
    crate::chars::lemma_not_keyword(s, i, SINCE_SP@, 0);
    crate::chars::lemma_not_keyword(s, i, SUBJECT_SP@, 0);
    crate::chars::lemma_not_keyword(s, i, TEXT_SP@, 0);
    crate::chars::lemma_not_keyword(s, i, TO_SP@, 0);
    crate::chars::lemma_not_keyword(s, i, EMAILID_SP@, 0);
    crate::chars::lemma_not_keyword(s, i, THREADID_SP@, 0);
    crate::chars::lemma_not_keyword(s, i, UNANSWERED@, 1);
    crate::chars::lemma_not_keyword(s, i, UNDELETED@, 1);
    crate::chars::lemma_not_keyword(s, i, UNFLAGGED@, 1);
    crate::chars::lemma_not_keyword(s, i, UNKEYWORD_SP@, 1);
    crate::chars::lemma_not_keyword(s, i, UNSEEN@, 1);
    crate::chars::lemma_not_keyword(s, i, DRAFT@, 0);
    crate::chars::lemma_not_keyword(s, i, HEADER_SP@, 0);
    crate::chars::lemma_not_keyword(s, i, LARGER_SP@, 0);
    crate::chars::lemma_not_keyword(s, i, NOT_SP@, 0);
    crate::chars::lemma_not_keyword(s, i, OR_SP@, 0);
    crate::chars::lemma_not_keyword(s, i, SENTBEFORE_SP@, 0);
    crate::chars::lemma_not_keyword(s, i, SENTON_SP@, 0);
    crate::chars::lemma_not_keyword(s, i, SENTSINCE_SP@, 0);
    crate::chars::lemma_not_keyword(s, i, SMALLER_SP@, 0);
    lemma_first_none(s, i);
    lemma_rest_none(s, i);
    lemma_more_none(s, i);
    reveal(spec_key_late);
    lemma_after_keyword(s, i, UID_SP@, x);
    assert(s[i + 4 + x.len()] == s[e]);
    crate::sequence::lemma_sequence_set_or_saved_round_trip(q, s, i + 4);
}

/// `UNDRAFT`, written at `i` and followed by a byte that may follow a
/// key, is read there, and no word tried before it is.
#[verifier::spinoff_prover]
proof fn lemma_read_undraft(s: Seq<u8>, i: int)
    requires
        0 <= i,
        i + spec_write_search_key(SearchKeyV::Undraft).len() < s.len(),
        s.subrange(i, i + spec_write_search_key(SearchKeyV::Undraft).len()) == spec_write_search_key(SearchKeyV::Undraft),
        follows_key(s[i + spec_write_search_key(SearchKeyV::Undraft).len()]),
    ensures
        spec_key_simple_first(s, i) is None,
        spec_key_simple_rest(s, i) is None,
        spec_key_more(s, i) is None,
        !spec_keyword(s, i, NOT_SP@),
        !spec_keyword(s, i, OR_SP@),
        spec_key_late(s, i) == Some((SearchKeyV::Undraft, i + spec_write_search_key(SearchKeyV::Undraft).len())),
{
    let w = UNDRAFT@;
    assert(spec_write_search_key(SearchKeyV::Undraft) =~= w);
    let e = i + w.len();
    assert forall|q: int| 0 <= q < w.len() implies s[i + q] == #[trigger] w[q] by {
        assert(s[i + q] == s.subrange(i, e)[q]);
    }
    assert(s[i + 0] == w[0]);
    assert(s[i + 1] == w[1]);
    assert(s[i + 2] == w[2]);
    assert(s[i + 3] == w[3]);
    crate::chars::lemma_not_keyword(s, i, ALL@, 0);
    crate::chars::lemma_not_keyword(s, i, ANSWERED@, 0);
    crate::chars::lemma_not_keyword(s, i, BCC_SP@, 0);
    crate::chars::lemma_not_keyword(s, i, BEFORE_SP@, 0);
    crate::chars::lemma_not_keyword(s, i, BODY_SP@, 0);
    crate::chars::lemma_not_keyword(s, i, CC_SP@, 0);
    crate::chars::lemma_not_keyword(s, i, DELETED@, 0);
    crate::chars::lemma_not_keyword(s, i, FLAGGED@, 0);
    crate::chars::lemma_not_keyword(s, i, FROM_SP@, 0);
    crate::chars::lemma_not_keyword(s, i, KEYWORD_SP@, 0);
    crate::chars::lemma_not_keyword(s, i, NEW@, 0);
    crate::chars::lemma_not_keyword(s, i, OLD@, 0);
    crate::chars::lemma_not_keyword(s, i, ON_SP@, 0);
    crate::chars::lemma_not_keyword(s, i, RECENT@, 0);
    crate::chars::lemma_not_keyword(s, i, SEEN@, 0);
    crate::chars::lemma_not_keyword(s, i, SINCE_SP@, 0);
    crate::chars::lemma_not_keyword(s, i, SUBJECT_SP@, 0);
    crate::chars::lemma_not_keyword(s, i, TEXT_SP@, 0);
    crate::chars::lemma_not_keyword(s, i, TO_SP@, 0);
    crate::chars::lemma_not_keyword(s, i, EMAILID_SP@, 0);
    crate::chars::lemma_not_keyword(s, i, THREADID_SP@, 0);
    crate::chars::lemma_not_keyword(s, i, UNANSWERED@, 2);
    crate::chars::lemma_not_keyword(s, i, UNDELETED@, 3);
    crate::chars::lemma_not_keyword(s, i, UNFLAGGED@, 2);
    crate::chars::lemma_not_keyword(s, i, UNKEYWORD_SP@, 2);
    crate::chars::lemma_not_keyword(s, i, UNSEEN@, 2);
    crate::chars::lemma_not_keyword(s, i, DRAFT@, 0);
    crate::chars::lemma_not_keyword(s, i, HEADER_SP@, 0);
    crate::chars::lemma_not_keyword(s, i, LARGER_SP@, 0);
    crate::chars::lemma_not_keyword(s, i, NOT_SP@, 0);
    crate::chars::lemma_not_keyword(s, i, OR_SP@, 0);
    crate::chars::lemma_not_keyword(s, i, SENTBEFORE_SP@, 0);
    crate::chars::lemma_not_keyword(s, i, SENTON_SP@, 0);
    crate::chars::lemma_not_keyword(s, i, SENTSINCE_SP@, 0);
    crate::chars::lemma_not_keyword(s, i, SMALLER_SP@, 0);
    crate::chars::lemma_not_keyword(s, i, UID_SP@, 1);
    lemma_first_none(s, i);
    lemma_rest_none(s, i);
    lemma_more_none(s, i);
    reveal(spec_key_late);
    crate::chars::lemma_keyword_at(s, i, UNDRAFT@);
}

} // verus!

verus! {

/// A sequence set or `$`, as written, begins with `$`, `*` or a digit.
proof fn lemma_sequence_set_first(q: Option<Seq<SequenceV>>)
    requires
        q matches Some(es) ==> crate::sequence::wf_sequence_set(es),
    ensures
        spec_write_sequence_set_or_saved(q).len() > 0,
        spec_write_sequence_set_or_saved(q)[0] == crate::sequence::DOLLAR
            || spec_write_sequence_set_or_saved(q)[0] == crate::sequence::ASTERISK
            || crate::chars::is_digit(spec_write_sequence_set_or_saved(q)[0]),
{
    match q {
        None => {},
        Some(es) => {
            let ws = crate::sequence::written_sequences(es);
            crate::rule::lemma_join_front(ws, seq![crate::uidplus::COMMA]);
            assert(ws[0] == crate::sequence::spec_write_sequence(es[0]));
            assert(crate::sequence::wf_sequence(es[0]));
            match es[0] {
                SequenceV::Single(a) => {
                    if let crate::sequence::SeqOrUidV::Value(v) = a {
                        crate::num::lemma_decimal(v as nat);
                    }
                },
                SequenceV::Range(a, b) => {
                    if let crate::sequence::SeqOrUidV::Value(v) = a {
                        crate::num::lemma_decimal(v as nat);
                    }
                },
            }
        },
    }
}

/// Where a byte that begins no word of a search key stands, none of the
/// words is read.
proof fn lemma_no_key_word(s: Seq<u8>, i: int)
    requires
        0 <= i < s.len(),
        !(65 <= s[i] <= 90) && !(97 <= s[i] <= 122),
    ensures
        spec_key_simple(s, i) is None,
        spec_key_more(s, i) is None,
        spec_key_late(s, i) is None,
        !spec_keyword(s, i, NOT_SP@),
        !spec_keyword(s, i, OR_SP@),
{
    crate::chars::lemma_not_keyword(s, i, ALL@, 0);
    crate::chars::lemma_not_keyword(s, i, ANSWERED@, 0);
    crate::chars::lemma_not_keyword(s, i, BCC_SP@, 0);
    crate::chars::lemma_not_keyword(s, i, BEFORE_SP@, 0);
    crate::chars::lemma_not_keyword(s, i, BODY_SP@, 0);
    crate::chars::lemma_not_keyword(s, i, CC_SP@, 0);
    crate::chars::lemma_not_keyword(s, i, DELETED@, 0);
    crate::chars::lemma_not_keyword(s, i, FLAGGED@, 0);
    crate::chars::lemma_not_keyword(s, i, FROM_SP@, 0);
    crate::chars::lemma_not_keyword(s, i, KEYWORD_SP@, 0);
    crate::chars::lemma_not_keyword(s, i, NEW@, 0);
    crate::chars::lemma_not_keyword(s, i, OLD@, 0);
    crate::chars::lemma_not_keyword(s, i, ON_SP@, 0);
    crate::chars::lemma_not_keyword(s, i, RECENT@, 0);
    crate::chars::lemma_not_keyword(s, i, SEEN@, 0);
    crate::chars::lemma_not_keyword(s, i, SINCE_SP@, 0);
    crate::chars::lemma_not_keyword(s, i, SUBJECT_SP@, 0);
    crate::chars::lemma_not_keyword(s, i, TEXT_SP@, 0);
    crate::chars::lemma_not_keyword(s, i, TO_SP@, 0);
    crate::chars::lemma_not_keyword(s, i, EMAILID_SP@, 0);
    crate::chars::lemma_not_keyword(s, i, THREADID_SP@, 0);
    crate::chars::lemma_not_keyword(s, i, UNANSWERED@, 0);
    crate::chars::lemma_not_keyword(s, i, UNDELETED@, 0);
    crate::chars::lemma_not_keyword(s, i, UNFLAGGED@, 0);
    crate::chars::lemma_not_keyword(s, i, UNKEYWORD_SP@, 0);
    crate::chars::lemma_not_keyword(s, i, UNSEEN@, 0);
    crate::chars::lemma_not_keyword(s, i, DRAFT@, 0);
    crate::chars::lemma_not_keyword(s, i, HEADER_SP@, 0);
    crate::chars::lemma_not_keyword(s, i, LARGER_SP@, 0);
    crate::chars::lemma_not_keyword(s, i, NOT_SP@, 0);
    crate::chars::lemma_not_keyword(s, i, OR_SP@, 0);
    crate::chars::lemma_not_keyword(s, i, SENTBEFORE_SP@, 0);
    crate::chars::lemma_not_keyword(s, i, SENTON_SP@, 0);
    crate::chars::lemma_not_keyword(s, i, SENTSINCE_SP@, 0);
    crate::chars::lemma_not_keyword(s, i, SMALLER_SP@, 0);
    crate::chars::lemma_not_keyword(s, i, UID_SP@, 0);
    crate::chars::lemma_not_keyword(s, i, UNDRAFT@, 0);
    lemma_first_none(s, i);
    lemma_rest_none(s, i);
    lemma_more_none(s, i);
    lemma_late_none(s, i);
}

/// A sequence set or `$`, written at `i` and followed by a byte that may
/// follow a key, reads back as a key.
#[verifier::rlimit(100)]
#[verifier::spinoff_prover]
proof fn lemma_key_sequence_set_round_trip(q: Option<Seq<SequenceV>>, s: Seq<u8>, i: int, d: nat)
    requires
        q matches Some(es) ==> crate::sequence::wf_sequence_set(es),
        d > 0,
        0 <= i,
        i + spec_write_sequence_set_or_saved(q).len() < s.len(),
        s.subrange(i, i + spec_write_sequence_set_or_saved(q).len()) == spec_write_sequence_set_or_saved(q),
        follows_key(s[i + spec_write_sequence_set_or_saved(q).len()]),
    ensures
        spec_search_key(s, i, d) == Some((SearchKeyV::SequenceSet(q), i + spec_write_sequence_set_or_saved(q).len())),
{
    let w = spec_write_sequence_set_or_saved(q);
    lemma_sequence_set_first(q);
    assert(s[i] == s.subrange(i, i + w.len())[0]);
    lemma_no_key_word(s, i);
    crate::sequence::lemma_sequence_set_or_saved_round_trip(q, s, i);
}

/// Where none of the words of the first keys that hold no other key stands, none of them is read.
proof fn lemma_first_none(s: Seq<u8>, i: int)
    requires
        !spec_keyword(s, i, ALL@),
        !spec_keyword(s, i, ANSWERED@),
        !spec_keyword(s, i, BCC_SP@),
        !spec_keyword(s, i, BEFORE_SP@),
        !spec_keyword(s, i, BODY_SP@),
        !spec_keyword(s, i, CC_SP@),
        !spec_keyword(s, i, DELETED@),
        !spec_keyword(s, i, FLAGGED@),
        !spec_keyword(s, i, FROM_SP@),
        !spec_keyword(s, i, KEYWORD_SP@),
        !spec_keyword(s, i, NEW@),
    ensures
        spec_key_simple_first(s, i) is None,
{
    reveal(spec_key_simple_first);
}

/// Where none of the words of the rest of the keys that hold no other key stands, none of them is read.
proof fn lemma_rest_none(s: Seq<u8>, i: int)
    requires
        !spec_keyword(s, i, OLD@),
        !spec_keyword(s, i, ON_SP@),
        !spec_keyword(s, i, RECENT@),
        !spec_keyword(s, i, SEEN@),
        !spec_keyword(s, i, SINCE_SP@),
        !spec_keyword(s, i, SUBJECT_SP@),
        !spec_keyword(s, i, TEXT_SP@),
        !spec_keyword(s, i, TO_SP@),
        !spec_keyword(s, i, EMAILID_SP@),
        !spec_keyword(s, i, THREADID_SP@),
    ensures
        spec_key_simple_rest(s, i) is None,
{
    reveal(spec_key_simple_rest);
}

/// Where none of the words of the keys tried after those stands, none of them is read.
proof fn lemma_more_none(s: Seq<u8>, i: int)
    requires
        !spec_keyword(s, i, UNANSWERED@),
        !spec_keyword(s, i, UNDELETED@),
        !spec_keyword(s, i, UNFLAGGED@),
        !spec_keyword(s, i, UNKEYWORD_SP@),
        !spec_keyword(s, i, UNSEEN@),
        !spec_keyword(s, i, DRAFT@),
        !spec_keyword(s, i, HEADER_SP@),
        !spec_keyword(s, i, LARGER_SP@),
    ensures
        spec_key_more(s, i) is None,
{
    reveal(spec_key_more);
}

/// Where none of the words of the keys tried after `OR` stands, none of them is read.
proof fn lemma_late_none(s: Seq<u8>, i: int)
    requires
        !spec_keyword(s, i, SENTBEFORE_SP@),
        !spec_keyword(s, i, SENTON_SP@),
        !spec_keyword(s, i, SENTSINCE_SP@),
        !spec_keyword(s, i, SMALLER_SP@),
        !spec_keyword(s, i, UID_SP@),
        !spec_keyword(s, i, UNDRAFT@),
    ensures
        spec_key_late(s, i) is None,
{
    reveal(spec_key_late);
}

/// A key read among the first that hold no other key is the key read.
proof fn lemma_route_first(k: SearchKeyV, s: Seq<u8>, i: int, d: nat, e: int)
    requires
        d > 0,
        spec_key_simple_first(s, i) == Some((k, e)),
    ensures
        spec_search_key(s, i, d) == Some((k, e)),
{
}

/// A key read among the rest that hold no other key, where none of the
/// first is, is the key read.
proof fn lemma_route_rest(k: SearchKeyV, s: Seq<u8>, i: int, d: nat, e: int)
    requires
        d > 0,
        spec_key_simple_first(s, i) is None,
        spec_key_simple_rest(s, i) == Some((k, e)),
    ensures
        spec_search_key(s, i, d) == Some((k, e)),
{
}

/// A key read among those tried next, where none of those that hold no
/// other key is, is the key read.
proof fn lemma_route_more(k: SearchKeyV, s: Seq<u8>, i: int, d: nat, e: int)
    requires
        d > 0,
        spec_key_simple_first(s, i) is None,
        spec_key_simple_rest(s, i) is None,
        spec_key_more(s, i) == Some((k, e)),
    ensures
        spec_search_key(s, i, d) == Some((k, e)),
{
}

/// A key read among those tried after `OR`, where none before them is, is
/// the key read.
proof fn lemma_route_late(k: SearchKeyV, s: Seq<u8>, i: int, d: nat, e: int)
    requires
        d > 0,
        spec_key_simple_first(s, i) is None,
        spec_key_simple_rest(s, i) is None,
        spec_key_more(s, i) is None,
        !spec_keyword(s, i, NOT_SP@),
        !spec_keyword(s, i, OR_SP@),
        spec_key_late(s, i) == Some((k, e)),
    ensures
        spec_search_key(s, i, d) == Some((k, e)),
{
}

/// Where `NOT` stands at `i` and a key is read after it, the key read at
/// `i` is its negation.
#[verifier::rlimit(100)]
#[verifier::spinoff_prover]
proof fn lemma_key_not_route(a: SearchKeyV, s: Seq<u8>, i: int, d: nat, j: int)
    requires
        d > 0,
        0 <= i,
        i + 4 <= s.len(),
        s.subrange(i, i + 4) == NOT_SP@,
        spec_search_key(s, i + 4, (d - 1) as nat) == Some((a, j)),
    ensures
        spec_search_key(s, i, d) == Some((SearchKeyV::Not(Box::new(a)), j)),
{
    let w = NOT_SP@;
    assert forall|q: int| 0 <= q < 4 implies s[i + q] == #[trigger] w[q] by {
        assert(s[i + q] == s.subrange(i, i + 4)[q]);
    }
    assert(s[i + 0] == w[0] && s[i + 1] == w[1]);
    crate::chars::lemma_not_keyword(s, i, ALL@, 0);
    crate::chars::lemma_not_keyword(s, i, ANSWERED@, 0);
    crate::chars::lemma_not_keyword(s, i, BCC_SP@, 0);
    crate::chars::lemma_not_keyword(s, i, BEFORE_SP@, 0);
    crate::chars::lemma_not_keyword(s, i, BODY_SP@, 0);
    crate::chars::lemma_not_keyword(s, i, CC_SP@, 0);
    crate::chars::lemma_not_keyword(s, i, DELETED@, 0);
    crate::chars::lemma_not_keyword(s, i, FLAGGED@, 0);
    crate::chars::lemma_not_keyword(s, i, FROM_SP@, 0);
    crate::chars::lemma_not_keyword(s, i, KEYWORD_SP@, 0);
    crate::chars::lemma_not_keyword(s, i, NEW@, 1);
    crate::chars::lemma_not_keyword(s, i, OLD@, 0);
    crate::chars::lemma_not_keyword(s, i, ON_SP@, 0);
    crate::chars::lemma_not_keyword(s, i, RECENT@, 0);
    crate::chars::lemma_not_keyword(s, i, SEEN@, 0);
    crate::chars::lemma_not_keyword(s, i, SINCE_SP@, 0);
    crate::chars::lemma_not_keyword(s, i, SUBJECT_SP@, 0);
    crate::chars::lemma_not_keyword(s, i, TEXT_SP@, 0);
    crate::chars::lemma_not_keyword(s, i, TO_SP@, 0);
    crate::chars::lemma_not_keyword(s, i, EMAILID_SP@, 0);
    crate::chars::lemma_not_keyword(s, i, THREADID_SP@, 0);
    crate::chars::lemma_not_keyword(s, i, UNANSWERED@, 0);
    crate::chars::lemma_not_keyword(s, i, UNDELETED@, 0);
    crate::chars::lemma_not_keyword(s, i, UNFLAGGED@, 0);
    crate::chars::lemma_not_keyword(s, i, UNKEYWORD_SP@, 0);
    crate::chars::lemma_not_keyword(s, i, UNSEEN@, 0);
    crate::chars::lemma_not_keyword(s, i, DRAFT@, 0);
    crate::chars::lemma_not_keyword(s, i, HEADER_SP@, 0);
    crate::chars::lemma_not_keyword(s, i, LARGER_SP@, 0);
    lemma_first_none(s, i);
    lemma_rest_none(s, i);
    lemma_more_none(s, i);
    crate::chars::lemma_keyword_at(s, i, NOT_SP@);
}

/// Where `OR` stands at `i` and two keys are read after it, the key read
/// at `i` is either of them.
#[verifier::rlimit(100)]
#[verifier::spinoff_prover]
proof fn lemma_key_or_route(a: SearchKeyV, b: SearchKeyV, s: Seq<u8>, i: int, d: nat, j: int, k: int)
    requires
        d > 0,
        0 <= i,
        i + 3 <= s.len(),
        s.subrange(i, i + 3) == OR_SP@,
        spec_search_key(s, i + 3, (d - 1) as nat) == Some((a, j)),
        0 <= j < s.len(),
        s[j] == SP,
        spec_search_key(s, j + 1, (d - 1) as nat) == Some((b, k)),
    ensures
        spec_search_key(s, i, d) == Some((SearchKeyV::Or(Box::new(a), Box::new(b)), k)),
{
    let w = OR_SP@;
    assert forall|q: int| 0 <= q < 3 implies s[i + q] == #[trigger] w[q] by {
        assert(s[i + q] == s.subrange(i, i + 3)[q]);
    }
    assert(s[i + 0] == w[0] && s[i + 1] == w[1]);
    crate::chars::lemma_not_keyword(s, i, ALL@, 0);
    crate::chars::lemma_not_keyword(s, i, ANSWERED@, 0);
    crate::chars::lemma_not_keyword(s, i, BCC_SP@, 0);
    crate::chars::lemma_not_keyword(s, i, BEFORE_SP@, 0);
    crate::chars::lemma_not_keyword(s, i, BODY_SP@, 0);
    crate::chars::lemma_not_keyword(s, i, CC_SP@, 0);
    crate::chars::lemma_not_keyword(s, i, DELETED@, 0);
    crate::chars::lemma_not_keyword(s, i, FLAGGED@, 0);
    crate::chars::lemma_not_keyword(s, i, FROM_SP@, 0);
    crate::chars::lemma_not_keyword(s, i, KEYWORD_SP@, 0);
    crate::chars::lemma_not_keyword(s, i, NEW@, 0);
    crate::chars::lemma_not_keyword(s, i, OLD@, 1);
    crate::chars::lemma_not_keyword(s, i, ON_SP@, 1);
    crate::chars::lemma_not_keyword(s, i, RECENT@, 0);
    crate::chars::lemma_not_keyword(s, i, SEEN@, 0);
    crate::chars::lemma_not_keyword(s, i, SINCE_SP@, 0);
    crate::chars::lemma_not_keyword(s, i, SUBJECT_SP@, 0);
    crate::chars::lemma_not_keyword(s, i, TEXT_SP@, 0);
    crate::chars::lemma_not_keyword(s, i, TO_SP@, 0);
    crate::chars::lemma_not_keyword(s, i, EMAILID_SP@, 0);
    crate::chars::lemma_not_keyword(s, i, THREADID_SP@, 0);
    crate::chars::lemma_not_keyword(s, i, UNANSWERED@, 0);
    crate::chars::lemma_not_keyword(s, i, UNDELETED@, 0);
    crate::chars::lemma_not_keyword(s, i, UNFLAGGED@, 0);
    crate::chars::lemma_not_keyword(s, i, UNKEYWORD_SP@, 0);
    crate::chars::lemma_not_keyword(s, i, UNSEEN@, 0);
    crate::chars::lemma_not_keyword(s, i, DRAFT@, 0);
    crate::chars::lemma_not_keyword(s, i, HEADER_SP@, 0);
    crate::chars::lemma_not_keyword(s, i, LARGER_SP@, 0);
    crate::chars::lemma_not_keyword(s, i, NOT_SP@, 0);
    lemma_first_none(s, i);
    lemma_rest_none(s, i);
    lemma_more_none(s, i);
    crate::chars::lemma_keyword_at(s, i, OR_SP@);
}

/// Where `(` stands at `i`, a key after it and more keys after that up to
/// `)`, the key read at `i` is their conjunction.
#[verifier::rlimit(100)]
#[verifier::spinoff_prover]
proof fn lemma_key_and_route(k0: SearchKeyV, rest: Seq<SearchKeyV>, s: Seq<u8>, i: int, d: nat, j: int, e: int)
    requires
        d > 0,
        0 <= i < s.len(),
        s[i] == LPAREN,
        spec_search_key(s, i + 1, (d - 1) as nat) == Some((k0, j)),
        i + 1 <= j <= s.len(),
        spec_search_keys_after(s, j, (d - 1) as nat) == (rest, e),
        0 <= e < s.len(),
        s[e] == RPAREN,
    ensures
        spec_search_key(s, i, d) == Some((SearchKeyV::And(seq![k0] + rest), e + 1)),
{
    lemma_no_key_word(s, i);
    assert(crate::chars::scan_end(s, i, crate::chars::ByteClass::Digit) == i);
}

#[verifier::rlimit(100)]
#[verifier::spinoff_prover]
proof fn lemma_key_not_round_trip(k: SearchKeyV, s: Seq<u8>, i: int, d: nat)
    requires
        k is Not,
        writable_search_key(k),
        within_depth(k, d),
        0 <= i,
        i + spec_write_search_key(k).len() < s.len(),
        s.subrange(i, i + spec_write_search_key(k).len()) == spec_write_search_key(k),
        follows_key(s[i + spec_write_search_key(k).len()]),
    ensures
        spec_search_key(s, i, d) == Some((k, i + spec_write_search_key(k).len())),
    decreases d, 0nat, 0nat,
{
    let w = spec_write_search_key(k);
    let e = i + w.len();
    assert(d > 0);
    match k {
        SearchKeyV::Not(a) => {
            let wa = spec_write_search_key(*a);
            assert(w == NOT_SP@ + wa);
            lemma_after_keyword(s, i, NOT_SP@, wa);
            assert(s[i + 4 + wa.len()] == s[e]);
            lemma_search_key_round_trip(*a, s, i + 4, (d - 1) as nat);
            lemma_key_not_route(*a, s, i, d, e);
        },
        _ => {},
    }
}

#[verifier::rlimit(100)]
#[verifier::spinoff_prover]
proof fn lemma_key_or_round_trip(k: SearchKeyV, s: Seq<u8>, i: int, d: nat)
    requires
        k is Or,
        writable_search_key(k),
        within_depth(k, d),
        0 <= i,
        i + spec_write_search_key(k).len() < s.len(),
        s.subrange(i, i + spec_write_search_key(k).len()) == spec_write_search_key(k),
        follows_key(s[i + spec_write_search_key(k).len()]),
    ensures
        spec_search_key(s, i, d) == Some((k, i + spec_write_search_key(k).len())),
    decreases d, 0nat, 0nat,
{
    let w = spec_write_search_key(k);
    let e = i + w.len();
    assert(d > 0);
    match k {
        SearchKeyV::Or(a, b) => {
            let wa = spec_write_search_key(*a);
            let wb = spec_write_search_key(*b);
            assert(w =~= OR_SP@ + (wa + (seq![SP] + wb)));
            lemma_after_keyword(s, i, OR_SP@, wa + (seq![SP] + wb));
            lemma_after_keyword(s, i + 3, wa, seq![SP] + wb);
            lemma_after_keyword(s, i + 3 + wa.len(), seq![SP], wb);
            let j = i + 3 + wa.len();
            assert(s[j] == s.subrange(j, j + 1)[0]);
            assert(s[j + 1 + wb.len()] == s[e]);
            lemma_search_key_round_trip(*a, s, i + 3, (d - 1) as nat);
            lemma_search_key_round_trip(*b, s, j + 1, (d - 1) as nat);
            lemma_key_or_route(*a, *b, s, i, d, j, e);
        },
        _ => {},
    }
}

/// How a list of keys stands where it is written: `(`, the first key, the
/// others each after a space, and `)`.
#[verifier::rlimit(100)]
#[verifier::spinoff_prover]
proof fn lemma_and_bytes(ks: Seq<SearchKeyV>, s: Seq<u8>, i: int)
    requires
        ks.len() > 0,
        0 <= i,
        i + spec_write_search_key(SearchKeyV::And(ks)).len() < s.len(),
        s.subrange(i, i + spec_write_search_key(SearchKeyV::And(ks)).len()) == spec_write_search_key(SearchKeyV::And(ks)),
    ensures
        s[i] == LPAREN,
        s.subrange(i + 1, i + 1 + spec_write_search_key(ks[0]).len()) == spec_write_search_key(ks[0]),
        s.subrange(i + 1 + spec_write_search_key(ks[0]).len(), i + 1 + spec_write_search_key(ks[0]).len()
            + crate::rule::prefixed(written_keys(ks.drop_first()), seq![SP]).len())
            == crate::rule::prefixed(written_keys(ks.drop_first()), seq![SP]),
        s[i + 1 + spec_write_search_key(ks[0]).len() + crate::rule::prefixed(written_keys(ks.drop_first()), seq![SP]).len()] == RPAREN,
        follows_key(s[i + 1 + spec_write_search_key(ks[0]).len()]),
        i + spec_write_search_key(SearchKeyV::And(ks)).len() == i + 1 + spec_write_search_key(ks[0]).len()
            + crate::rule::prefixed(written_keys(ks.drop_first()), seq![SP]).len() + 1,
{
    let w = spec_write_search_key(SearchKeyV::And(ks));
    let e = i + w.len();
    let ws = written_keys(ks);
    crate::rule::lemma_join_front(ws, seq![SP]);
    let w0 = ws[0];
    let rest = ks.drop_first();
    let rest_w = ws.drop_first();
    let p2 = crate::rule::prefixed(rest_w, seq![SP]);
    assert(written_keys(rest) =~= rest_w);
    assert(w0 == spec_write_search_key(ks[0]));
    assert(w =~= seq![LPAREN] + (w0 + (p2 + seq![RPAREN])));
    assert(s[i] == s.subrange(i, e)[0]);
    lemma_after_keyword(s, i, seq![LPAREN], w0 + (p2 + seq![RPAREN]));
    lemma_after_keyword(s, i + 1, w0, p2 + seq![RPAREN]);
    let j = i + 1 + w0.len();
    lemma_after_keyword(s, j, p2, seq![RPAREN]);
    let f = j + p2.len();
    assert(s[f] == s.subrange(f, f + 1)[0]);
    if rest.len() > 0 {
        crate::rule::lemma_prefixed_front(rest_w, seq![SP]);
        assert(s[j] == s.subrange(j, j + p2.len())[0]);
    }
}

#[verifier::rlimit(100)]
#[verifier::spinoff_prover]
proof fn lemma_key_and_round_trip(k: SearchKeyV, s: Seq<u8>, i: int, d: nat)
    requires
        k is And,
        writable_search_key(k),
        within_depth(k, d),
        0 <= i,
        i + spec_write_search_key(k).len() < s.len(),
        s.subrange(i, i + spec_write_search_key(k).len()) == spec_write_search_key(k),
        follows_key(s[i + spec_write_search_key(k).len()]),
    ensures
        spec_search_key(s, i, d) == Some((k, i + spec_write_search_key(k).len())),
    decreases d, 0nat, 0nat,
{
    assert(d > 0);
    match k {
        SearchKeyV::And(ks) => {
            lemma_and_bytes(ks, s, i);
            let rest = ks.drop_first();
            let j = i + 1 + spec_write_search_key(ks[0]).len();
            let f = j + crate::rule::prefixed(written_keys(rest), seq![SP]).len();
            assert(within_depth(ks[0], (d - 1) as nat));
            assert(writable_search_key(ks[0]));
            assert forall|n: int| 0 <= n < rest.len() implies writable_search_key(#[trigger] rest[n])
                && within_depth(rest[n], (d - 1) as nat) by {
                assert(rest[n] == ks[n + 1]);
                assert(within_depth(ks[n + 1], (d - 1) as nat));
            }
            lemma_keys_after_round_trip(rest, s, j, (d - 1) as nat);
            lemma_search_key_round_trip(ks[0], s, i + 1, (d - 1) as nat);
            lemma_key_and_route(ks[0], rest, s, i, d, j, f);
            assert(seq![ks[0]] + rest =~= ks);
        },
        _ => {},
    }
}

/// A search key that can be written, nested within `d` levels, written at
/// `i` and followed by a space, `)` or CR, reads back as itself at depth
/// `d`.
#[verifier::rlimit(100)]
#[verifier::spinoff_prover]
pub proof fn lemma_search_key_round_trip(k: SearchKeyV, s: Seq<u8>, i: int, d: nat)
    requires
        writable_search_key(k),
        within_depth(k, d),
        0 <= i,
        i + spec_write_search_key(k).len() < s.len(),
        s.subrange(i, i + spec_write_search_key(k).len()) == spec_write_search_key(k),
        follows_key(s[i + spec_write_search_key(k).len()]),
    ensures
        spec_search_key(s, i, d) == Some((k, i + spec_write_search_key(k).len())),
    decreases d, 1nat, 0nat,
{
    let w = spec_write_search_key(k);
    let e = i + w.len();
    assert(d > 0);
    match k {
        SearchKeyV::Not(_) => lemma_key_not_round_trip(k, s, i, d),
        SearchKeyV::Or(_, _) => lemma_key_or_round_trip(k, s, i, d),
        SearchKeyV::And(_) => lemma_key_and_round_trip(k, s, i, d),
        SearchKeyV::SequenceSet(q) => lemma_key_sequence_set_round_trip(q, s, i, d),
        SearchKeyV::All => {
            lemma_read_all(s, i);
            lemma_route_first(k, s, i, d, e);
        },
        SearchKeyV::Answered => {
            lemma_read_answered(s, i);
            lemma_route_first(k, s, i, d, e);
        },
        SearchKeyV::Bcc(a) => {
            lemma_read_bcc(a, s, i);
            lemma_route_first(k, s, i, d, e);
        },
        SearchKeyV::Before(dt) => {
            lemma_read_before(dt, s, i);
            lemma_route_first(k, s, i, d, e);
        },
        SearchKeyV::Body(a) => {
            lemma_read_body(a, s, i);
            lemma_route_first(k, s, i, d, e);
        },
        SearchKeyV::Cc(a) => {
            lemma_read_cc(a, s, i);
            lemma_route_first(k, s, i, d, e);
        },
        SearchKeyV::Deleted => {
            lemma_read_deleted(s, i);
            lemma_route_first(k, s, i, d, e);
        },
        SearchKeyV::Flagged => {
            lemma_read_flagged(s, i);
            lemma_route_first(k, s, i, d, e);
        },
        SearchKeyV::From(a) => {
            lemma_read_from(a, s, i);
            lemma_route_first(k, s, i, d, e);
        },
        SearchKeyV::Keyword(a) => {
            lemma_read_keyword(a, s, i);
            lemma_route_first(k, s, i, d, e);
        },
        SearchKeyV::New => {
            lemma_read_new(s, i);
            lemma_route_first(k, s, i, d, e);
        },
        SearchKeyV::Old => {
            lemma_read_old(s, i);
            lemma_route_rest(k, s, i, d, e);
        },
        SearchKeyV::On(dt) => {
            lemma_read_on(dt, s, i);
            lemma_route_rest(k, s, i, d, e);
        },
        SearchKeyV::Recent => {
            lemma_read_recent(s, i);
            lemma_route_rest(k, s, i, d, e);
        },
        SearchKeyV::Seen => {
            lemma_read_seen(s, i);
            lemma_route_rest(k, s, i, d, e);
        },
        SearchKeyV::Since(dt) => {
            lemma_read_since(dt, s, i);
            lemma_route_rest(k, s, i, d, e);
        },
        SearchKeyV::Subject(a) => {
            lemma_read_subject(a, s, i);
            lemma_route_rest(k, s, i, d, e);
        },
        SearchKeyV::Text(a) => {
            lemma_read_text(a, s, i);
            lemma_route_rest(k, s, i, d, e);
        },
        SearchKeyV::To(a) => {
            lemma_read_to(a, s, i);
            lemma_route_rest(k, s, i, d, e);
        },
        SearchKeyV::EmailId(o) => {
            lemma_read_email_id(o, s, i);
            lemma_route_rest(k, s, i, d, e);
        },
        SearchKeyV::ThreadId(o) => {
            lemma_read_thread_id(o, s, i);
            lemma_route_rest(k, s, i, d, e);
        },
        SearchKeyV::Unanswered => {
            lemma_read_unanswered(s, i);
            lemma_route_more(k, s, i, d, e);
        },
        SearchKeyV::Undeleted => {
            lemma_read_undeleted(s, i);
            lemma_route_more(k, s, i, d, e);
        },
        SearchKeyV::Unflagged => {
            lemma_read_unflagged(s, i);
            lemma_route_more(k, s, i, d, e);
        },
        SearchKeyV::Unkeyword(a) => {
            lemma_read_unkeyword(a, s, i);
            lemma_route_more(k, s, i, d, e);
        },
        SearchKeyV::Unseen => {
            lemma_read_unseen(s, i);
            lemma_route_more(k, s, i, d, e);
        },
        SearchKeyV::Draft => {
            lemma_read_draft(s, i);
            lemma_route_more(k, s, i, d, e);
        },
        SearchKeyV::Header(a, b) => {
            lemma_read_header(a, b, s, i);
            lemma_route_more(k, s, i, d, e);
        },
        SearchKeyV::Larger(n) => {
            lemma_read_larger(n, s, i);
            lemma_route_more(k, s, i, d, e);
        },
        SearchKeyV::SentBefore(dt) => {
            lemma_read_sent_before(dt, s, i);
            lemma_route_late(k, s, i, d, e);
        },
        SearchKeyV::SentOn(dt) => {
            lemma_read_sent_on(dt, s, i);
            lemma_route_late(k, s, i, d, e);
        },
        SearchKeyV::SentSince(dt) => {
            lemma_read_sent_since(dt, s, i);
            lemma_route_late(k, s, i, d, e);
        },
        SearchKeyV::Smaller(n) => {
            lemma_read_smaller(n, s, i);
            lemma_route_late(k, s, i, d, e);
        },
        SearchKeyV::Uid(q) => {
            lemma_read_uid(q, s, i);
            lemma_route_late(k, s, i, d, e);
        },
        SearchKeyV::Undraft => {
            lemma_read_undraft(s, i);
            lemma_route_late(k, s, i, d, e);
        },
    }
}

/// Keys, each written after a space at `i` and followed by `)`, read back
/// at depth `d`.
#[verifier::rlimit(100)]
#[verifier::spinoff_prover]
proof fn lemma_keys_after_round_trip(ks: Seq<SearchKeyV>, s: Seq<u8>, i: int, d: nat)
    requires
        forall|n: int| 0 <= n < ks.len() ==> writable_search_key(#[trigger] ks[n]) && within_depth(ks[n], d),
        0 <= i,
        i + crate::rule::prefixed(written_keys(ks), seq![SP]).len() < s.len(),
        s.subrange(i, i + crate::rule::prefixed(written_keys(ks), seq![SP]).len())
            == crate::rule::prefixed(written_keys(ks), seq![SP]),
        s[i + crate::rule::prefixed(written_keys(ks), seq![SP]).len()] == RPAREN,
    ensures
        spec_search_keys_after(s, i, d) == (ks, i + crate::rule::prefixed(written_keys(ks), seq![SP]).len()),
    decreases d, 2nat, ks.len(),
{
    let ws = written_keys(ks);
    let pw = crate::rule::prefixed(ws, seq![SP]);
    if ks.len() == 0 {
        assert(pw == Seq::<u8>::empty());
        assert(ks =~= seq![]);
    } else {
        crate::rule::lemma_prefixed_front(ws, seq![SP]);
        let w0 = ws[0];
        let rest = ks.drop_first();
        let rest_w = ws.drop_first();
        let p2 = crate::rule::prefixed(rest_w, seq![SP]);
        assert(written_keys(rest) =~= rest_w);
        assert(w0 == spec_write_search_key(ks[0]));
        assert(pw =~= seq![SP] + (w0 + p2));
        assert(s[i] == s.subrange(i, i + pw.len())[0]);
        lemma_after_keyword(s, i, seq![SP], w0 + p2);
        lemma_after_keyword(s, i + 1, w0, p2);
        let j = i + 1 + w0.len();
        assert forall|n: int| 0 <= n < rest.len() implies writable_search_key(#[trigger] rest[n])
            && within_depth(rest[n], d) by {
            assert(rest[n] == ks[n + 1]);
        }
        lemma_keys_after_round_trip(rest, s, j, d);
        if rest.len() > 0 {
            crate::rule::lemma_prefixed_front(rest_w, seq![SP]);
            assert(s[j] == s.subrange(j, j + p2.len())[0]);
        }
        assert(follows_key(s[j]));
        assert(writable_search_key(ks[0]) && within_depth(ks[0], d));
        lemma_search_key_round_trip(ks[0], s, i + 1, d);
        assert(seq![ks[0]] + rest =~= ks);
    }
}

} // verus!

verus! {

/// A written search key begins with no small letter; where it begins with
/// `R` its third byte is `C`, and where with `C`, its second.
#[verifier::rlimit(100)]
#[verifier::spinoff_prover]
pub proof fn lemma_key_first(k: SearchKeyV)
    requires
        writable_search_key(k),
    ensures
        spec_write_search_key(k).len() > 0,
        !(97 <= spec_write_search_key(k)[0] <= 122),
        spec_write_search_key(k)[0] == 82 ==> spec_write_search_key(k).len() > 2 && spec_write_search_key(k)[2] == 67,
        spec_write_search_key(k)[0] == 67 ==> spec_write_search_key(k).len() > 1 && spec_write_search_key(k)[1] == 67,
{
    let w = spec_write_search_key(k);
    match k {
        SearchKeyV::SequenceSet(q) => {
            lemma_sequence_set_first(q);
        },
        SearchKeyV::And(ks) => {
            assert(w[0] == LPAREN);
        },
        SearchKeyV::Recent => {
            assert(w =~= RECENT@);
        },
        SearchKeyV::Cc(a) => {
            assert(w[0] == CC_SP@[0] && w[1] == CC_SP@[1]);
        },
        _ => {
            assert(w.len() > 0);
        },
    }
}

} // verus!

verus! {

/// Whether a charset can be written and read back: an atom, or a quoted
/// string that can.
pub open spec fn writable_charset(c: StrV) -> bool {
    ||| c.kind == crate::strings::StrKind::Atom && c.bytes.len() > 0 && crate::chars::all_in(c.bytes, crate::chars::ByteClass::Atom)
    ||| c.kind == crate::strings::StrKind::Quoted && crate::strings::writable_str(c)
}

/// A charset written at `i` and followed by a space reads back.
pub proof fn lemma_charset_round_trip(c: StrV, s: Seq<u8>, i: int)
    requires
        writable_charset(c),
        0 <= i,
        i + spec_write_str(c).len() < s.len(),
        s.subrange(i, i + spec_write_str(c).len()) == spec_write_str(c),
        s[i + spec_write_str(c).len()] == SP,
    ensures
        spec_charset(s, i) == Some((c, i + spec_write_str(c).len())),
{
    if c.kind == crate::strings::StrKind::Atom {
        crate::strings::lemma_atom_round_trip(c.bytes, s, i);
    } else {
        crate::strings::lemma_string_round_trip(c, s, i);
        assert(s[i] == s.subrange(i, i + spec_write_str(c).len())[0]);
        assert(crate::chars::scan_end(s, i, crate::chars::ByteClass::Atom) == i);
    }
}

} // verus!

verus! {

// ---------------------------------------------------------------------
// The words each form is written with.

/// How each form of a search key is written, its words spelled out byte by byte.
pub proof fn lemma_search_key_written()
    ensures
        spec_write_search_key(SearchKeyV::All) == seq![65u8, 76, 76],
        spec_write_search_key(SearchKeyV::Answered) == seq![65u8, 78, 83, 87, 69, 82, 69, 68],
        spec_write_search_key(SearchKeyV::Deleted) == seq![68u8, 69, 76, 69, 84, 69, 68],
        spec_write_search_key(SearchKeyV::Draft) == seq![68u8, 82, 65, 70, 84],
        spec_write_search_key(SearchKeyV::Flagged) == seq![70u8, 76, 65, 71, 71, 69, 68],
        spec_write_search_key(SearchKeyV::New) == seq![78u8, 69, 87],
        spec_write_search_key(SearchKeyV::Old) == seq![79u8, 76, 68],
        spec_write_search_key(SearchKeyV::Recent) == seq![82u8, 69, 67, 69, 78, 84],
        spec_write_search_key(SearchKeyV::Seen) == seq![83u8, 69, 69, 78],
        spec_write_search_key(SearchKeyV::Unanswered) == seq![85u8, 78, 65, 78, 83, 87, 69, 82, 69, 68],
        spec_write_search_key(SearchKeyV::Undeleted) == seq![85u8, 78, 68, 69, 76, 69, 84, 69, 68],
        spec_write_search_key(SearchKeyV::Undraft) == seq![85u8, 78, 68, 82, 65, 70, 84],
        spec_write_search_key(SearchKeyV::Unflagged) == seq![85u8, 78, 70, 76, 65, 71, 71, 69, 68],
        spec_write_search_key(SearchKeyV::Unseen) == seq![85u8, 78, 83, 69, 69, 78],
        forall|v: SearchKeyV| #![trigger spec_write_search_key(v)] v matches SearchKeyV::Bcc(a) ==> spec_write_search_key(v) == seq![66u8, 67, 67, 32] + spec_write_str(a),
        forall|v: SearchKeyV| #![trigger spec_write_search_key(v)] v matches SearchKeyV::Body(a) ==> spec_write_search_key(v) == seq![66u8, 79, 68, 89, 32] + spec_write_str(a),
        forall|v: SearchKeyV| #![trigger spec_write_search_key(v)] v matches SearchKeyV::Cc(a) ==> spec_write_search_key(v) == seq![67u8, 67, 32] + spec_write_str(a),
        forall|v: SearchKeyV| #![trigger spec_write_search_key(v)] v matches SearchKeyV::From(a) ==> spec_write_search_key(v) == seq![70u8, 82, 79, 77, 32] + spec_write_str(a),
        forall|v: SearchKeyV| #![trigger spec_write_search_key(v)] v matches SearchKeyV::Subject(a) ==> spec_write_search_key(v) == seq![83u8, 85, 66, 74, 69, 67, 84, 32] + spec_write_str(a),
        forall|v: SearchKeyV| #![trigger spec_write_search_key(v)] v matches SearchKeyV::Text(a) ==> spec_write_search_key(v) == seq![84u8, 69, 88, 84, 32] + spec_write_str(a),
        forall|v: SearchKeyV| #![trigger spec_write_search_key(v)] v matches SearchKeyV::To(a) ==> spec_write_search_key(v) == seq![84u8, 79, 32] + spec_write_str(a),
        forall|v: SearchKeyV| #![trigger spec_write_search_key(v)] v matches SearchKeyV::Before(d) ==> spec_write_search_key(v) == seq![66u8, 69, 70, 79, 82, 69, 32] + spec_write_date(d),
        forall|v: SearchKeyV| #![trigger spec_write_search_key(v)] v matches SearchKeyV::On(d) ==> spec_write_search_key(v) == seq![79u8, 78, 32] + spec_write_date(d),
        forall|v: SearchKeyV| #![trigger spec_write_search_key(v)] v matches SearchKeyV::SentBefore(d) ==> spec_write_search_key(v) == seq![83u8, 69, 78, 84, 66, 69, 70, 79, 82, 69, 32] + spec_write_date(d),
        forall|v: SearchKeyV| #![trigger spec_write_search_key(v)] v matches SearchKeyV::SentOn(d) ==> spec_write_search_key(v) == seq![83u8, 69, 78, 84, 79, 78, 32] + spec_write_date(d),
        forall|v: SearchKeyV| #![trigger spec_write_search_key(v)] v matches SearchKeyV::SentSince(d) ==> spec_write_search_key(v) == seq![83u8, 69, 78, 84, 83, 73, 78, 67, 69, 32] + spec_write_date(d),
        forall|v: SearchKeyV| #![trigger spec_write_search_key(v)] v matches SearchKeyV::Since(d) ==> spec_write_search_key(v) == seq![83u8, 73, 78, 67, 69, 32] + spec_write_date(d),
        forall|v: SearchKeyV| #![trigger spec_write_search_key(v)] v matches SearchKeyV::Keyword(a) ==> spec_write_search_key(v) == seq![75u8, 69, 89, 87, 79, 82, 68, 32] + a,
        forall|v: SearchKeyV| #![trigger spec_write_search_key(v)] v matches SearchKeyV::Unkeyword(a) ==> spec_write_search_key(v) == seq![85u8, 78, 75, 69, 89, 87, 79, 82, 68, 32] + a,
        forall|v: SearchKeyV| #![trigger spec_write_search_key(v)] v matches SearchKeyV::Larger(n) ==> spec_write_search_key(v) == seq![76u8, 65, 82, 71, 69, 82, 32] + decimal(n as nat),
        forall|v: SearchKeyV| #![trigger spec_write_search_key(v)] v matches SearchKeyV::Smaller(n) ==> spec_write_search_key(v) == seq![83u8, 77, 65, 76, 76, 69, 82, 32] + decimal(n as nat),
        forall|v: SearchKeyV| #![trigger spec_write_search_key(v)] v matches SearchKeyV::EmailId(o) ==> spec_write_search_key(v) == seq![69u8, 77, 65, 73, 76, 73, 68, 32] + o,
        forall|v: SearchKeyV| #![trigger spec_write_search_key(v)] v matches SearchKeyV::ThreadId(o) ==> spec_write_search_key(v) == seq![84u8, 72, 82, 69, 65, 68, 73, 68, 32] + o,
        forall|v: SearchKeyV| #![trigger spec_write_search_key(v)] v matches SearchKeyV::Header(a, b) ==> spec_write_search_key(v) == seq![72u8, 69, 65, 68, 69, 82, 32] + spec_write_str(a) + seq![SP] + spec_write_str(b),
        forall|v: SearchKeyV| #![trigger spec_write_search_key(v)] v matches SearchKeyV::Not(k) ==> spec_write_search_key(v) == seq![78u8, 79, 84, 32] + spec_write_search_key(*k),
        forall|v: SearchKeyV| #![trigger spec_write_search_key(v)] v matches SearchKeyV::Or(a, b) ==> spec_write_search_key(v) == seq![79u8, 82, 32] + spec_write_search_key(*a) + seq![SP] + spec_write_search_key(*b),
        forall|v: SearchKeyV| #![trigger spec_write_search_key(v)] v matches SearchKeyV::Uid(x) ==> spec_write_search_key(v) == seq![85u8, 73, 68, 32] + spec_write_sequence_set_or_saved(x),
{
    assert(ALL@ =~= seq![65u8, 76, 76]);
    assert(ANSWERED@ =~= seq![65u8, 78, 83, 87, 69, 82, 69, 68]);
    assert(BCC_SP@ =~= seq![66u8, 67, 67, 32]);
    assert(BEFORE_SP@ =~= seq![66u8, 69, 70, 79, 82, 69, 32]);
    assert(BODY_SP@ =~= seq![66u8, 79, 68, 89, 32]);
    assert(CC_SP@ =~= seq![67u8, 67, 32]);
    assert(DELETED@ =~= seq![68u8, 69, 76, 69, 84, 69, 68]);
    assert(DRAFT@ =~= seq![68u8, 82, 65, 70, 84]);
    assert(EMAILID_SP@ =~= seq![69u8, 77, 65, 73, 76, 73, 68, 32]);
    assert(FLAGGED@ =~= seq![70u8, 76, 65, 71, 71, 69, 68]);
    assert(FROM_SP@ =~= seq![70u8, 82, 79, 77, 32]);
    assert(HEADER_SP@ =~= seq![72u8, 69, 65, 68, 69, 82, 32]);
    assert(KEYWORD_SP@ =~= seq![75u8, 69, 89, 87, 79, 82, 68, 32]);
    assert(LARGER_SP@ =~= seq![76u8, 65, 82, 71, 69, 82, 32]);
    assert(NEW@ =~= seq![78u8, 69, 87]);
    assert(NOT_SP@ =~= seq![78u8, 79, 84, 32]);
    assert(OLD@ =~= seq![79u8, 76, 68]);
    assert(ON_SP@ =~= seq![79u8, 78, 32]);
    assert(OR_SP@ =~= seq![79u8, 82, 32]);
    assert(RECENT@ =~= seq![82u8, 69, 67, 69, 78, 84]);
    assert(SEEN@ =~= seq![83u8, 69, 69, 78]);
    assert(SENTBEFORE_SP@ =~= seq![83u8, 69, 78, 84, 66, 69, 70, 79, 82, 69, 32]);
    assert(SENTON_SP@ =~= seq![83u8, 69, 78, 84, 79, 78, 32]);
    assert(SENTSINCE_SP@ =~= seq![83u8, 69, 78, 84, 83, 73, 78, 67, 69, 32]);
    assert(SINCE_SP@ =~= seq![83u8, 73, 78, 67, 69, 32]);
    assert(SMALLER_SP@ =~= seq![83u8, 77, 65, 76, 76, 69, 82, 32]);
    assert(SUBJECT_SP@ =~= seq![83u8, 85, 66, 74, 69, 67, 84, 32]);
    assert(TEXT_SP@ =~= seq![84u8, 69, 88, 84, 32]);
    assert(THREADID_SP@ =~= seq![84u8, 72, 82, 69, 65, 68, 73, 68, 32]);
    assert(TO_SP@ =~= seq![84u8, 79, 32]);
    assert(UID_SP@ =~= seq![85u8, 73, 68, 32]);
    assert(UNANSWERED@ =~= seq![85u8, 78, 65, 78, 83, 87, 69, 82, 69, 68]);
    assert(UNDELETED@ =~= seq![85u8, 78, 68, 69, 76, 69, 84, 69, 68]);
    assert(UNDRAFT@ =~= seq![85u8, 78, 68, 82, 65, 70, 84]);
    assert(UNFLAGGED@ =~= seq![85u8, 78, 70, 76, 65, 71, 71, 69, 68]);
    assert(UNKEYWORD_SP@ =~= seq![85u8, 78, 75, 69, 89, 87, 79, 82, 68, 32]);
    assert(UNSEEN@ =~= seq![85u8, 78, 83, 69, 69, 78]);
}

} // verus!
