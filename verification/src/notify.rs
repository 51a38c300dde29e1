//! NOTIFY (RFC 5465): which changes a client wants to hear about without
//! asking, in which mailboxes; how that is read and written.

use vstd::prelude::*;

use crate::chars::{byte, keyword, put, spec_byte, spec_keyword, CR, LPAREN, RPAREN, SP};
use crate::fetch::{FetchAttRule, FetchAttWriter, MessageDataItemName, MessageDataItemNameV};
use crate::mailbox::{read_mailbox, spec_mailbox, Mailbox, MailboxRule, MailboxV, MailboxWriter, spec_write_mailbox, write_mailbox};
use crate::rule::{
    join, prefixed, read_paren_list, read_separated, read_view, spec_paren_list, spec_preceded, spec_separated,
    write_joined, write_prefixed, written, Rule, Writer,
};
use crate::strings::{read_atom, spec_atom, AtomRule, Atom};
use crate::vec1::Vec1;

verus! {

/// `MessageNew`
pub const MESSAGE_NEW: [u8; 10] = [77, 101, 115, 115, 97, 103, 101, 78, 101, 119];
/// `MessageExpunge`
pub const MESSAGE_EXPUNGE: [u8; 14] = [77, 101, 115, 115, 97, 103, 101, 69, 120, 112, 117, 110, 103, 101];
/// `FlagChange`
pub const FLAG_CHANGE: [u8; 10] = [70, 108, 97, 103, 67, 104, 97, 110, 103, 101];
/// `AnnotationChange`
pub const ANNOTATION_CHANGE: [u8; 16] = [65, 110, 110, 111, 116, 97, 116, 105, 111, 110, 67, 104, 97, 110, 103, 101];
/// `MailboxName`
pub const MAILBOX_NAME: [u8; 11] = [77, 97, 105, 108, 98, 111, 120, 78, 97, 109, 101];
/// `SubscriptionChange`
pub const SUBSCRIPTION_CHANGE: [u8; 18] = [83, 117, 98, 115, 99, 114, 105, 112, 116, 105, 111, 110, 67, 104, 97, 110, 103, 101];
/// `MailboxMetadataChange`
pub const MAILBOX_METADATA_CHANGE: [u8; 21] = [77, 97, 105, 108, 98, 111, 120, 77, 101, 116, 97, 100, 97, 116, 97, 67, 104, 97, 110, 103, 101];
/// `ServerMetadataChange`
pub const SERVER_METADATA_CHANGE: [u8; 20] = [83, 101, 114, 118, 101, 114, 77, 101, 116, 97, 100, 97, 116, 97, 67, 104, 97, 110, 103, 101];
/// `selected-delayed`
pub const SELECTED_DELAYED: [u8; 16] = [115, 101, 108, 101, 99, 116, 101, 100, 45, 100, 101, 108, 97, 121, 101, 100];
/// `selected`
pub const SELECTED: [u8; 8] = [115, 101, 108, 101, 99, 116, 101, 100];
/// `inboxes`
pub const INBOXES: [u8; 7] = [105, 110, 98, 111, 120, 101, 115];
/// `personal`
pub const PERSONAL: [u8; 8] = [112, 101, 114, 115, 111, 110, 97, 108];
/// `subscribed`
pub const SUBSCRIBED_W: [u8; 10] = [115, 117, 98, 115, 99, 114, 105, 98, 101, 100];
/// `subtree `
pub const SUBTREE_SP: [u8; 8] = [115, 117, 98, 116, 114, 101, 101, 32];
/// `mailboxes `
pub const MAILBOXES_SP: [u8; 10] = [109, 97, 105, 108, 98, 111, 120, 101, 115, 32];
/// `NONE`
pub const NONE: [u8; 4] = [78, 79, 78, 69];
/// `NOTIFY `
pub const NOTIFY_SP: [u8; 7] = [78, 79, 84, 73, 70, 89, 32];
/// `SET`
pub const SET: [u8; 3] = [83, 69, 84];
/// ` STATUS`
pub const SP_STATUS: [u8; 7] = [32, 83, 84, 65, 84, 85, 83];
/// `NOTIFICATIONOVERFLOW`
pub const NOTIFICATIONOVERFLOW: [u8; 20] = [78, 79, 84, 73, 70, 73, 67, 65, 84, 73, 79, 78, 79, 86, 69, 82, 70, 76, 79, 87];
/// `BADEVENT (`
pub const BADEVENT_SP_LPAREN: [u8; 10] = [66, 65, 68, 69, 86, 69, 78, 84, 32, 40];

/// `notify-set = "SET" [status-indicator] SP event-groups`
#[derive(Debug, PartialEq, Eq, Hash)]
pub struct NotifySet {
    /// `STATUS`: send each watched mailbox's `STATUS` before the `OK`.
    pub status: bool,
    /// The event groups, which replace any registered before.
    pub groups: Vec1<EventGroup>,
}

/// `event-group = "(" filter-mailboxes SP events ")"`
#[derive(Debug, PartialEq, Eq, Hash)]
pub struct EventGroup {
    /// Which mailboxes.
    pub mailboxes: FilterMailboxes,
    /// The events, or `None` for `NONE`: nothing from these mailboxes.
    pub events: Option<Vec1<Event>>,
}

/// `filter-mailboxes`
#[derive(Debug, PartialEq, Eq, Hash)]
pub enum FilterMailboxes {
    /// `selected`: the open mailbox, told at once.
    Selected,
    /// `selected-delayed`: the open mailbox, expunges held for a command
    /// that may report them.
    SelectedDelayed,
    /// `inboxes`: every mailbox that receives mail.
    Inboxes,
    /// `personal`: every mailbox in the user's own namespace.
    Personal,
    /// `subscribed`: every subscribed mailbox.
    Subscribed,
    /// `subtree`: these mailboxes and everything under them.
    Subtree(Vec1<Mailbox>),
    /// `mailboxes`: exactly these.
    Mailboxes(Vec1<Mailbox>),
}

/// `event`
#[derive(Debug, PartialEq, Eq, Hash)]
pub enum Event {
    /// `MessageNew`, with the fetch attributes to send for each new
    /// message in the selected mailbox; empty when none were given.
    MessageNew(Vec<MessageDataItemName>),
    MessageExpunge,
    FlagChange,
    AnnotationChange,
    MailboxName,
    SubscriptionChange,
    MailboxMetadataChange,
    ServerMetadataChange,
    /// `event-ext`: a name this crate does not know.
    Other(Atom),
}

/// The model of a [`NotifySet`].
pub struct NotifySetV {
    pub status: bool,
    pub groups: Seq<EventGroupV>,
}

/// The model of an [`EventGroup`].
pub struct EventGroupV {
    pub mailboxes: FilterMailboxesV,
    pub events: Option<Seq<EventV>>,
}

/// The model of [`FilterMailboxes`].
pub enum FilterMailboxesV {
    Selected,
    SelectedDelayed,
    Inboxes,
    Personal,
    Subscribed,
    Subtree(Seq<MailboxV>),
    Mailboxes(Seq<MailboxV>),
}

/// The model of an [`Event`].
pub enum EventV {
    MessageNew(Seq<MessageDataItemNameV>),
    MessageExpunge,
    FlagChange,
    AnnotationChange,
    MailboxName,
    SubscriptionChange,
    MailboxMetadataChange,
    ServerMetadataChange,
    Other(Seq<u8>),
}

impl DeepView for Event {
    type V = EventV;

    open spec fn deep_view(&self) -> EventV {
        match self {
            Event::MessageNew(a) => EventV::MessageNew(a.deep_view()),
            Event::MessageExpunge => EventV::MessageExpunge,
            Event::FlagChange => EventV::FlagChange,
            Event::AnnotationChange => EventV::AnnotationChange,
            Event::MailboxName => EventV::MailboxName,
            Event::SubscriptionChange => EventV::SubscriptionChange,
            Event::MailboxMetadataChange => EventV::MailboxMetadataChange,
            Event::ServerMetadataChange => EventV::ServerMetadataChange,
            Event::Other(a) => EventV::Other(a.deep_view()),
        }
    }
}

impl DeepView for FilterMailboxes {
    type V = FilterMailboxesV;

    open spec fn deep_view(&self) -> FilterMailboxesV {
        match self {
            FilterMailboxes::Selected => FilterMailboxesV::Selected,
            FilterMailboxes::SelectedDelayed => FilterMailboxesV::SelectedDelayed,
            FilterMailboxes::Inboxes => FilterMailboxesV::Inboxes,
            FilterMailboxes::Personal => FilterMailboxesV::Personal,
            FilterMailboxes::Subscribed => FilterMailboxesV::Subscribed,
            FilterMailboxes::Subtree(m) => FilterMailboxesV::Subtree(m.deep_view()),
            FilterMailboxes::Mailboxes(m) => FilterMailboxesV::Mailboxes(m.deep_view()),
        }
    }
}

impl DeepView for EventGroup {
    type V = EventGroupV;

    open spec fn deep_view(&self) -> EventGroupV {
        EventGroupV {
            mailboxes: self.mailboxes.deep_view(),
            events: match self.events {
                Some(e) => Some(e.deep_view()),
                None => None,
            },
        }
    }
}

impl DeepView for NotifySet {
    type V = NotifySetV;

    open spec fn deep_view(&self) -> NotifySetV {
        NotifySetV { status: self.status, groups: self.groups.deep_view() }
    }
}

// ---------------------------------------------------------------------
// Reading.

/// `one-or-more-mailbox = mailbox / many-mailboxes`, `many-mailboxes =
/// "(" mailbox *(SP mailbox) ")"`, the parenthesized form tried first.
pub open spec fn spec_one_or_more_mailbox(s: Seq<u8>, i: int) -> Option<(Seq<MailboxV>, int)> {
    match spec_paren_list(MailboxRule, s, i, false) {
        Some(x) => Some(x),
        None => match spec_mailbox(s, i) {
            Some((m, j)) => Some((seq![m], j)),
            None => None,
        },
    }
}

fn read_one_or_more_mailbox(s: &[u8], i: usize) -> (r: Option<(Vec1<Mailbox>, usize)>)
    requires
        i <= s@.len(),
    ensures
        read_view(r) == spec_one_or_more_mailbox(s@, i as int),
        r matches Some((_, j)) ==> i <= j <= s@.len(),
{
    match read_paren_list(&MailboxRule, s, i, false) {
        Some((v, j)) => match Vec1::from_vec_dv(v) {
            Some(v) => Some((v, j)),
            None => None,
        },
        None => match read_mailbox(s, i) {
            Some((m, j)) => {
                let ghost mv = m.deep_view();
                let v = Vec1::from_one(m);
                proof {
                    Vec1::lemma_deep_view(v);
                    assert(v.deep_view() =~= seq![mv]);
                }
                Some((v, j))
            },
            None => None,
        },
    }
}

/// `filter-mailboxes`: the words in the order they are tried, the longer
/// `selected-delayed` before `selected`.
#[verifier::opaque]
pub open spec fn spec_filter_mailboxes(s: Seq<u8>, i: int) -> Option<(FilterMailboxesV, int)> {
    let r = crate::search::flag(s, i, SELECTED_DELAYED@, FilterMailboxesV::SelectedDelayed);
    let r = crate::search::alt(r, crate::search::flag(s, i, SELECTED@, FilterMailboxesV::Selected));
    let r = crate::search::alt(r, crate::search::flag(s, i, INBOXES@, FilterMailboxesV::Inboxes));
    let r = crate::search::alt(r, crate::search::flag(s, i, PERSONAL@, FilterMailboxesV::Personal));
    let r = crate::search::alt(r, crate::search::flag(s, i, SUBSCRIBED_W@, FilterMailboxesV::Subscribed));
    let r = crate::search::alt(r, crate::search::map_value(crate::search::after_keyword(s, i, SUBTREE_SP@, |j: int| spec_one_or_more_mailbox(s, j)), |x: Seq<MailboxV>| FilterMailboxesV::Subtree(x)));
    crate::search::alt(r, crate::search::map_value(crate::search::after_keyword(s, i, MAILBOXES_SP@, |j: int| spec_one_or_more_mailbox(s, j)), |x: Seq<MailboxV>| FilterMailboxesV::Mailboxes(x)))
}

fn read_filter_mailboxes(s: &[u8], i: usize) -> (r: Option<(FilterMailboxes, usize)>)
    requires
        i <= s@.len(),
    ensures
        read_view(r) == spec_filter_mailboxes(s@, i as int),
        r matches Some((_, j)) ==> i <= j <= s@.len(),
{
    proof {
        reveal(spec_filter_mailboxes);
    }
    let k = SELECTED_DELAYED;
    if keyword(s, i, k.as_slice()) {
        return Some((FilterMailboxes::SelectedDelayed, i + k.len()));
    }
    let k = SELECTED;
    if keyword(s, i, k.as_slice()) {
        return Some((FilterMailboxes::Selected, i + k.len()));
    }
    let k = INBOXES;
    if keyword(s, i, k.as_slice()) {
        return Some((FilterMailboxes::Inboxes, i + k.len()));
    }
    let k = PERSONAL;
    if keyword(s, i, k.as_slice()) {
        return Some((FilterMailboxes::Personal, i + k.len()));
    }
    let k = SUBSCRIBED_W;
    if keyword(s, i, k.as_slice()) {
        return Some((FilterMailboxes::Subscribed, i + k.len()));
    }
    let k = SUBTREE_SP;
    if keyword(s, i, k.as_slice()) {
        if let Some((m, j)) = read_one_or_more_mailbox(s, i + k.len()) {
            return Some((FilterMailboxes::Subtree(m), j));
        }
    }
    let k = MAILBOXES_SP;
    if keyword(s, i, k.as_slice()) {
        if let Some((m, j)) = read_one_or_more_mailbox(s, i + k.len()) {
            return Some((FilterMailboxes::Mailboxes(m), j));
        }
    }
    None
}

/// `message-event = ("MessageNew" [SP "(" fetch-att *(SP fetch-att) ")"])
/// / "MessageExpunge" / "FlagChange" / "AnnotationChange"`, `mailbox-event
/// = "MailboxName" / "SubscriptionChange" / "MailboxMetadataChange"`,
/// `user-event = "ServerMetadataChange"`, `event-ext = atom`, tried in
/// this order.
pub open spec fn spec_event(s: Seq<u8>, i: int) -> Option<(EventV, int)> {
    let r = if spec_keyword(s, i, MESSAGE_NEW@) {
        if spec_byte(s, i + 10, SP) {
            match spec_paren_list(FetchAttRule, s, i + 11, false) {
                Some((a, j)) => Some((EventV::MessageNew(a), j)),
                None => Some((EventV::MessageNew(seq![]), i + 10)),
            }
        } else {
            Some((EventV::MessageNew(seq![]), i + 10))
        }
    } else {
        None
    };
    let r = crate::search::alt(r, crate::search::flag(s, i, MESSAGE_EXPUNGE@, EventV::MessageExpunge));
    let r = crate::search::alt(r, crate::search::flag(s, i, FLAG_CHANGE@, EventV::FlagChange));
    let r = crate::search::alt(r, crate::search::flag(s, i, ANNOTATION_CHANGE@, EventV::AnnotationChange));
    let r = crate::search::alt(r, crate::search::flag(s, i, MAILBOX_NAME@, EventV::MailboxName));
    let r = crate::search::alt(r, crate::search::flag(s, i, SUBSCRIPTION_CHANGE@, EventV::SubscriptionChange));
    let r = crate::search::alt(r, crate::search::flag(s, i, MAILBOX_METADATA_CHANGE@, EventV::MailboxMetadataChange));
    let r = crate::search::alt(r, crate::search::flag(s, i, SERVER_METADATA_CHANGE@, EventV::ServerMetadataChange));
    crate::search::alt(r, match spec_atom(s, i) {
        Some((a, j)) => Some((EventV::Other(a), j)),
        None => None,
    })
}

/// The rule `event`.
pub struct EventRule;

impl Rule for EventRule {
    type Out = Event;

    open spec fn spec_read(&self, s: Seq<u8>, i: int) -> Option<(EventV, int)> {
        spec_event(s, i)
    }

    fn read(&self, s: &[u8], i: usize) -> (r: Option<(Event, usize)>) {
        let k = MESSAGE_NEW;
        if keyword(s, i, k.as_slice()) {
            if byte(s, i + 10, SP) {
                if let Some((a, j)) = read_paren_list(&FetchAttRule, s, i + 11, false) {
                    return Some((Event::MessageNew(a), j));
                }
            }
            let v: Vec<MessageDataItemName> = Vec::new();
            proof {
                assert(v.deep_view() =~= seq![]);
            }
            return Some((Event::MessageNew(v), i + 10));
        }
        let k = MESSAGE_EXPUNGE;
        if keyword(s, i, k.as_slice()) {
            return Some((Event::MessageExpunge, i + k.len()));
        }
        let k = FLAG_CHANGE;
        if keyword(s, i, k.as_slice()) {
            return Some((Event::FlagChange, i + k.len()));
        }
        let k = ANNOTATION_CHANGE;
        if keyword(s, i, k.as_slice()) {
            return Some((Event::AnnotationChange, i + k.len()));
        }
        let k = MAILBOX_NAME;
        if keyword(s, i, k.as_slice()) {
            return Some((Event::MailboxName, i + k.len()));
        }
        let k = SUBSCRIPTION_CHANGE;
        if keyword(s, i, k.as_slice()) {
            return Some((Event::SubscriptionChange, i + k.len()));
        }
        let k = MAILBOX_METADATA_CHANGE;
        if keyword(s, i, k.as_slice()) {
            return Some((Event::MailboxMetadataChange, i + k.len()));
        }
        let k = SERVER_METADATA_CHANGE;
        if keyword(s, i, k.as_slice()) {
            return Some((Event::ServerMetadataChange, i + k.len()));
        }
        match read_atom(s, i) {
            Some((a, j)) => Some((Event::Other(a), j)),
            None => None,
        }
    }
}

/// `events = ("(" event *(SP event) ")") / "NONE"`
#[verifier::opaque]
pub open spec fn spec_events(s: Seq<u8>, i: int) -> Option<(Option<Seq<EventV>>, int)> {
    if spec_keyword(s, i, NONE@) {
        Some((None, i + 4))
    } else {
        match spec_paren_list(EventRule, s, i, false) {
            Some((e, j)) => Some((Some(e), j)),
            None => None,
        }
    }
}

/// `event-group = "(" filter-mailboxes SP events ")"`
pub open spec fn spec_event_group(s: Seq<u8>, i: int) -> Option<(EventGroupV, int)> {
    if spec_byte(s, i, LPAREN) {
        match spec_filter_mailboxes(s, i + 1) {
            Some((m, j)) => if spec_byte(s, j, SP) {
                match spec_events(s, j + 1) {
                    Some((e, k)) => if spec_byte(s, k, RPAREN) {
                        Some((EventGroupV { mailboxes: m, events: e }, k + 1))
                    } else {
                        None
                    },
                    None => None,
                }
            } else {
                None
            },
            None => None,
        }
    } else {
        None
    }
}

/// The rule `event-group`.
pub struct EventGroupRule;

impl Rule for EventGroupRule {
    type Out = EventGroup;

    open spec fn spec_read(&self, s: Seq<u8>, i: int) -> Option<(EventGroupV, int)> {
        spec_event_group(s, i)
    }

    fn read(&self, s: &[u8], i: usize) -> (r: Option<(EventGroup, usize)>) {
        proof {
            reveal(spec_events);
        }
        if !byte(s, i, LPAREN) {
            return None;
        }
        let (m, j) = match read_filter_mailboxes(s, i + 1) {
            Some(x) => x,
            None => return None,
        };
        if !byte(s, j, SP) {
            return None;
        }
        let k = NONE;
        let (e, e_end) = if keyword(s, j + 1, k.as_slice()) {
            (None, j + 5)
        } else {
            match read_paren_list(&EventRule, s, j + 1, false) {
                Some((e, e_end)) => match Vec1::from_vec_dv(e) {
                    Some(v) => (Some(v), e_end),
                    None => return None,
                },
                None => return None,
            }
        };
        if byte(s, e_end, RPAREN) {
            Some((EventGroup { mailboxes: m, events: e }, e_end + 1))
        } else {
            None
        }
    }
}

/// `notify = "NOTIFY" SP (notify-set / notify-none)`: `None` for
/// `NONE`, the set otherwise.
#[verifier::opaque]
pub open spec fn spec_notify(s: Seq<u8>, i: int) -> Option<(Option<NotifySetV>, int)> {
    if spec_keyword(s, i, NOTIFY_SP@) {
        let i = i + 7;
        if spec_keyword(s, i, NONE@) {
            Some((None, i + 4))
        } else if spec_keyword(s, i, SET@) {
            let (status, j) = if spec_keyword(s, i + 3, SP_STATUS@) {
                (true, i + 10)
            } else {
                (false, i + 3)
            };
            if spec_byte(s, j, SP) {
                match spec_separated(EventGroupRule, s, j + 1, SP) {
                    Some((g, k)) => Some((Some(NotifySetV { status, groups: g }), k)),
                    None => None,
                }
            } else {
                None
            }
        } else {
            None
        }
    } else {
        None
    }
}

/// Reads a `NOTIFY` command's arguments at `i`, from its name on.
pub fn read_notify(s: &[u8], i: usize) -> (r: Option<(Option<NotifySet>, usize)>)
    requires
        i <= s@.len(),
    ensures
        read_view(r) == spec_notify(s@, i as int),
        r matches Some((_, j)) ==> i < j <= s@.len(),
{
    proof {
        reveal(spec_notify);
    }
    let k = NOTIFY_SP;
    if !keyword(s, i, k.as_slice()) {
        return None;
    }
    let i = i + 7;
    let k = NONE;
    if keyword(s, i, k.as_slice()) {
        return Some((None, i + 4));
    }
    let k = SET;
    if !keyword(s, i, k.as_slice()) {
        return None;
    }
    let k = SP_STATUS;
    let (status, j) = if keyword(s, i + 3, k.as_slice()) {
        (true, i + 10)
    } else {
        (false, i + 3)
    };
    if !byte(s, j, SP) {
        return None;
    }
    match read_separated(&EventGroupRule, s, j + 1, SP) {
        Some((g, e)) => match Vec1::from_vec_dv(g) {
            Some(groups) => Some((Some(NotifySet { status, groups }), e)),
            None => None,
        },
        None => None,
    }
}

/// `unsupported-events-code = "BADEVENT" SP "(" event-name *(SP
/// event-name) ")"`: the names.
pub open spec fn spec_bad_event(s: Seq<u8>, i: int) -> Option<(Seq<Seq<u8>>, int)> {
    if spec_keyword(s, i, BADEVENT_SP_LPAREN@) {
        match spec_separated(AtomRule, s, i + 10, SP) {
            Some((names, j)) => if spec_byte(s, j, RPAREN) {
                Some((names, j + 1))
            } else {
                None
            },
            None => None,
        }
    } else {
        None
    }
}

/// Reads the names of a `BADEVENT` code at `i`.
pub fn read_bad_event(s: &[u8], i: usize) -> (r: Option<(Vec1<Atom>, usize)>)
    requires
        i <= s@.len(),
    ensures
        read_view(r) == spec_bad_event(s@, i as int),
        r matches Some((_, j)) ==> i < j <= s@.len(),
{
    let k = BADEVENT_SP_LPAREN;
    if !keyword(s, i, k.as_slice()) {
        return None;
    }
    match read_separated(&AtomRule, s, i + 10, SP) {
        Some((names, j)) => if byte(s, j, RPAREN) {
            match Vec1::from_vec_dv(names) {
                Some(v) => Some((v, j + 1)),
                None => None,
            }
        } else {
            None
        },
        None => None,
    }
}

// ---------------------------------------------------------------------
// Writing.

/// One mailbox alone, several in parentheses.
pub open spec fn spec_write_mailboxes(ms: Seq<MailboxV>) -> Seq<u8> {
    if ms.len() == 1 {
        spec_write_mailbox(ms[0])
    } else {
        seq![LPAREN] + join(written(MailboxWriter, ms), seq![SP]) + seq![RPAREN]
    }
}

fn write_mailboxes(out: &mut Vec<u8>, ms: &Vec1<Mailbox>)
    ensures
        final(out)@ == old(out)@ + spec_write_mailboxes(ms.deep_view()),
{
    let ghost start = old(out)@;
    let v = ms.as_slice_dv();
    if v.len() == 1 {
        write_mailbox(out, &v[0]);
        assert(v@[0].deep_view() == v.deep_view()[0]);
    } else {
        out.push(LPAREN);
        let sp = [SP];
        write_joined(&MailboxWriter, out, v, sp.as_slice());
        out.push(RPAREN);
        assert(sp@ =~= seq![SP]);
        assert(out@ =~= start + spec_write_mailboxes(ms.deep_view()));
    }
}

/// How `filter-mailboxes` is written.
pub open spec fn spec_write_filter_mailboxes(f: FilterMailboxesV) -> Seq<u8> {
    match f {
        FilterMailboxesV::Selected => SELECTED@,
        FilterMailboxesV::SelectedDelayed => SELECTED_DELAYED@,
        FilterMailboxesV::Inboxes => INBOXES@,
        FilterMailboxesV::Personal => PERSONAL@,
        FilterMailboxesV::Subscribed => SUBSCRIBED_W@,
        FilterMailboxesV::Subtree(ms) => SUBTREE_SP@ + spec_write_mailboxes(ms),
        FilterMailboxesV::Mailboxes(ms) => MAILBOXES_SP@ + spec_write_mailboxes(ms),
    }
}

/// How an event is written.
pub open spec fn spec_write_event(e: EventV) -> Seq<u8> {
    match e {
        EventV::MessageNew(a) => MESSAGE_NEW@ + if a.len() == 0 {
            seq![]
        } else {
            seq![SP, LPAREN] + join(written(FetchAttWriter, a), seq![SP]) + seq![RPAREN]
        },
        EventV::MessageExpunge => MESSAGE_EXPUNGE@,
        EventV::FlagChange => FLAG_CHANGE@,
        EventV::AnnotationChange => ANNOTATION_CHANGE@,
        EventV::MailboxName => MAILBOX_NAME@,
        EventV::SubscriptionChange => SUBSCRIPTION_CHANGE@,
        EventV::MailboxMetadataChange => MAILBOX_METADATA_CHANGE@,
        EventV::ServerMetadataChange => SERVER_METADATA_CHANGE@,
        EventV::Other(a) => a,
    }
}

/// Writes events.
pub struct EventWriter;

impl Writer for EventWriter {
    type In = Event;

    open spec fn spec_write(&self, v: EventV) -> Seq<u8> {
        spec_write_event(v)
    }

    fn write(&self, out: &mut Vec<u8>, v: &Event) {
        let ghost start = old(out)@;
        match v {
            Event::MessageNew(a) => {
                put(out, MESSAGE_NEW.as_slice());
                if a.len() > 0 {
                    out.push(SP);
                    out.push(LPAREN);
                    let sp = [SP];
                    write_joined(&FetchAttWriter, out, a.as_slice(), sp.as_slice());
                    out.push(RPAREN);
                    assert(sp@ =~= seq![SP]);
                }
            },
            Event::MessageExpunge => put(out, MESSAGE_EXPUNGE.as_slice()),
            Event::FlagChange => put(out, FLAG_CHANGE.as_slice()),
            Event::AnnotationChange => put(out, ANNOTATION_CHANGE.as_slice()),
            Event::MailboxName => put(out, MAILBOX_NAME.as_slice()),
            Event::SubscriptionChange => put(out, SUBSCRIPTION_CHANGE.as_slice()),
            Event::MailboxMetadataChange => put(out, MAILBOX_METADATA_CHANGE.as_slice()),
            Event::ServerMetadataChange => put(out, SERVER_METADATA_CHANGE.as_slice()),
            Event::Other(a) => put(out, a.as_bytes()),
        }
        assert(out@ =~= start + spec_write_event(v.deep_view()));
    }
}

/// How an event group is written.
pub open spec fn spec_write_event_group(g: EventGroupV) -> Seq<u8> {
    seq![LPAREN] + spec_write_filter_mailboxes(g.mailboxes) + seq![SP] + match g.events {
        None => NONE@,
        Some(e) => seq![LPAREN] + join(written(EventWriter, e), seq![SP]) + seq![RPAREN],
    } + seq![RPAREN]
}

/// Writes event groups.
pub struct EventGroupWriter;

impl Writer for EventGroupWriter {
    type In = EventGroup;

    open spec fn spec_write(&self, v: EventGroupV) -> Seq<u8> {
        spec_write_event_group(v)
    }

    fn write(&self, out: &mut Vec<u8>, v: &EventGroup) {
        let ghost start = old(out)@;
        out.push(LPAREN);
        let ghost a = out@;
        match &v.mailboxes {
            FilterMailboxes::Selected => put(out, SELECTED.as_slice()),
            FilterMailboxes::SelectedDelayed => put(out, SELECTED_DELAYED.as_slice()),
            FilterMailboxes::Inboxes => put(out, INBOXES.as_slice()),
            FilterMailboxes::Personal => put(out, PERSONAL.as_slice()),
            FilterMailboxes::Subscribed => put(out, SUBSCRIBED_W.as_slice()),
            FilterMailboxes::Subtree(ms) => {
                put(out, SUBTREE_SP.as_slice());
                write_mailboxes(out, ms);
            },
            FilterMailboxes::Mailboxes(ms) => {
                put(out, MAILBOXES_SP.as_slice());
                write_mailboxes(out, ms);
            },
        }
        assert(out@ =~= a + spec_write_filter_mailboxes(v.mailboxes.deep_view()));
        out.push(SP);
        let ghost b = out@;
        match &v.events {
            None => put(out, NONE.as_slice()),
            Some(e) => {
                out.push(LPAREN);
                let sp = [SP];
                write_joined(&EventWriter, out, e.as_slice_dv(), sp.as_slice());
                out.push(RPAREN);
                assert(sp@ =~= seq![SP]);
            },
        }
        out.push(RPAREN);
        assert(out@ =~= start + spec_write_event_group(v.deep_view()));
    }
}

/// How a `NOTIFY` command's arguments are written, from its name on.
pub open spec fn spec_write_notify(set: Option<NotifySetV>) -> Seq<u8> {
    NOTIFY_SP@ + match set {
        None => NONE@,
        Some(n) => SET@ + (if n.status {
            SP_STATUS@
        } else {
            seq![]
        }) + prefixed(written(EventGroupWriter, n.groups), seq![SP]),
    }
}

/// Writes a `NOTIFY` command's arguments, from its name on.
pub fn write_notify(out: &mut Vec<u8>, set: &Option<NotifySet>)
    ensures
        final(out)@ == old(out)@ + spec_write_notify(match set {
            Some(n) => Some(n.deep_view()),
            None => None,
        }),
{
    let ghost start = old(out)@;
    put(out, NOTIFY_SP.as_slice());
    match set {
        None => put(out, NONE.as_slice()),
        Some(n) => {
            put(out, SET.as_slice());
            if n.status {
                put(out, SP_STATUS.as_slice());
            }
            let sp = [SP];
            write_prefixed(&EventGroupWriter, out, n.groups.as_slice_dv(), sp.as_slice());
            assert(sp@ =~= seq![SP]);
        },
    }
    assert(out@ =~= start + spec_write_notify(match set {
        Some(n) => Some(n.deep_view()),
        None => None,
    }));
}

// ---------------------------------------------------------------------
// What is written reads back.

/// A keyword does not stand at `i` where one of its bytes differs, in
/// every case, from the byte in its place.
proof fn lemma_kw_differs(s: Seq<u8>, i: int, kw: Seq<u8>, j: int)
    ensures
        0 <= i && 0 <= j < kw.len() && i + j < s.len() && crate::chars::to_lower(s[i + j]) != crate::chars::to_lower(kw[j])
            ==> !spec_keyword(s, i, kw),
{
    if 0 <= i && 0 <= j < kw.len() && i + j < s.len() && crate::chars::to_lower(s[i + j]) != crate::chars::to_lower(kw[j]) {
        crate::chars::lemma_not_keyword(s, i, kw, j);
    }
}

/// Whether every mailbox can be written and read back.
pub open spec fn writable_mailboxes(ms: Seq<MailboxV>) -> bool {
    &&& ms.len() > 0
    &&& forall|k: int| 0 <= k < ms.len() ==> crate::mailbox::writable_mailbox(#[trigger] ms[k])
}

/// Mailboxes, written at `i` and followed by a space or `)`, read back.
proof fn lemma_mailboxes_round_trip(ms: Seq<MailboxV>, s: Seq<u8>, i: int)
    requires
        writable_mailboxes(ms),
        0 <= i,
        i + spec_write_mailboxes(ms).len() < s.len(),
        s.subrange(i, i + spec_write_mailboxes(ms).len()) == spec_write_mailboxes(ms),
        s[i + spec_write_mailboxes(ms).len()] == SP || s[i + spec_write_mailboxes(ms).len()] == RPAREN,
    ensures
        spec_one_or_more_mailbox(s, i) == Some((ms, i + spec_write_mailboxes(ms).len())),
{
    let w = spec_write_mailboxes(ms);
    if ms.len() == 1 {
        assert(crate::mailbox::writable_mailbox(ms[0]));
        crate::mailbox::lemma_mailbox_not_paren(ms[0]);
        assert(s[i] == w[0]);
        crate::mailbox::lemma_mailbox_round_trip(ms[0], s, i);
        assert(seq![ms[0]] =~= ms);
    } else {
        let ws = written(MailboxWriter, ms);
        let after = |b: u8| b == SP || b == RPAREN;
        assert forall|k: int, q: int| 0 <= k < ms.len() implies #[trigger] crate::rule::reads_at(MailboxRule, s, q, ms[k], ws[k], after) by {
            assert(ws[k] == spec_write_mailbox(ms[k]));
            assert(crate::mailbox::writable_mailbox(ms[k]));
            if 0 <= q && q + ws[k].len() < s.len() && s.subrange(q, q + ws[k].len()) == ws[k] && after(s[q + ws[k].len()]) {
                crate::mailbox::lemma_mailbox_round_trip(ms[k], s, q);
            }
        }
        crate::rule::lemma_paren_list_round_trip(MailboxRule, ms, ws, s, i, false, after);
    }
}

/// Whether `filter-mailboxes` can be written and read back.
pub open spec fn writable_filter(f: FilterMailboxesV) -> bool {
    match f {
        FilterMailboxesV::Subtree(ms) => writable_mailboxes(ms),
        FilterMailboxesV::Mailboxes(ms) => writable_mailboxes(ms),
        _ => true,
    }
}

/// `filter-mailboxes`, written at `i` and followed by a space, reads back.
#[verifier::rlimit(100)]
proof fn lemma_filter_round_trip(f: FilterMailboxesV, s: Seq<u8>, i: int)
    requires
        writable_filter(f),
        0 <= i,
        i + spec_write_filter_mailboxes(f).len() < s.len(),
        s.subrange(i, i + spec_write_filter_mailboxes(f).len()) == spec_write_filter_mailboxes(f),
        s[i + spec_write_filter_mailboxes(f).len()] == SP,
    ensures
        spec_filter_mailboxes(s, i) == Some((f, i + spec_write_filter_mailboxes(f).len())),
{
    reveal(spec_filter_mailboxes);
    let w = spec_write_filter_mailboxes(f);
    let e = i + w.len();
    assert forall|k: int| 0 <= k < w.len() implies s[i + k] == #[trigger] w[k] by {
        assert(s[i + k] == s.subrange(i, e)[k]);
    }
    lemma_kw_differs(s, i, SELECTED_DELAYED@, 0);
    lemma_kw_differs(s, i, SELECTED_DELAYED@, 8);
    lemma_kw_differs(s, i, SELECTED@, 0);
    lemma_kw_differs(s, i, INBOXES@, 0);
    lemma_kw_differs(s, i, PERSONAL@, 0);
    lemma_kw_differs(s, i, SUBSCRIBED_W@, 0);
    lemma_kw_differs(s, i, SUBSCRIBED_W@, 3);
    lemma_kw_differs(s, i, SUBTREE_SP@, 0);
    lemma_kw_differs(s, i, SUBTREE_SP@, 3);
    match f {
        FilterMailboxesV::Selected => {
            assert(w[0] == SELECTED@[0]);
            assert(s[i + 8] == SP);
            crate::chars::lemma_keyword_at(s, i, SELECTED@);
        },
        FilterMailboxesV::SelectedDelayed => {
            crate::chars::lemma_keyword_at(s, i, SELECTED_DELAYED@);
        },
        FilterMailboxesV::Inboxes => {
            assert(w[0] == INBOXES@[0]);
            crate::chars::lemma_keyword_at(s, i, INBOXES@);
        },
        FilterMailboxesV::Personal => {
            assert(w[0] == PERSONAL@[0]);
            crate::chars::lemma_keyword_at(s, i, PERSONAL@);
        },
        FilterMailboxesV::Subscribed => {
            assert(w[0] == SUBSCRIBED_W@[0] && w[3] == SUBSCRIBED_W@[3]);
            crate::chars::lemma_keyword_at(s, i, SUBSCRIBED_W@);
        },
        FilterMailboxesV::Subtree(ms) => {
            let wm = spec_write_mailboxes(ms);
            assert(w[0] == SUBTREE_SP@[0] && w[3] == SUBTREE_SP@[3]);
            crate::chars::lemma_part(s, i, w, 0, 8);
            assert(w.subrange(0, 8) =~= SUBTREE_SP@);
            crate::chars::lemma_keyword_at(s, i, SUBTREE_SP@);
            crate::chars::lemma_part(s, i, w, 8, wm.len() as int);
            assert(w.subrange(8, w.len() as int) =~= wm);
            lemma_mailboxes_round_trip(ms, s, i + 8);
        },
        FilterMailboxesV::Mailboxes(ms) => {
            let wm = spec_write_mailboxes(ms);
            assert(w[0] == MAILBOXES_SP@[0]);
            crate::chars::lemma_part(s, i, w, 0, 10);
            assert(w.subrange(0, 10) =~= MAILBOXES_SP@);
            crate::chars::lemma_keyword_at(s, i, MAILBOXES_SP@);
            crate::chars::lemma_part(s, i, w, 10, wm.len() as int);
            assert(w.subrange(10, w.len() as int) =~= wm);
            lemma_mailboxes_round_trip(ms, s, i + 10);
        },
    }
}

/// Whether an atom begins with none of the names of the events this crate
/// knows, in any case: such an atom would read back as that event.
pub open spec fn no_event_name(a: Seq<u8>) -> bool {
    &&& !spec_keyword(a, 0, MESSAGE_NEW@)
    &&& !spec_keyword(a, 0, MESSAGE_EXPUNGE@)
    &&& !spec_keyword(a, 0, FLAG_CHANGE@)
    &&& !spec_keyword(a, 0, ANNOTATION_CHANGE@)
    &&& !spec_keyword(a, 0, MAILBOX_NAME@)
    &&& !spec_keyword(a, 0, SUBSCRIPTION_CHANGE@)
    &&& !spec_keyword(a, 0, MAILBOX_METADATA_CHANGE@)
    &&& !spec_keyword(a, 0, SERVER_METADATA_CHANGE@)
}

/// The names of the events are atoms.
proof fn lemma_event_names_are_atoms()
    ensures
        crate::chars::all_in(MESSAGE_NEW@, crate::chars::ByteClass::Atom),
        crate::chars::all_in(MESSAGE_EXPUNGE@, crate::chars::ByteClass::Atom),
        crate::chars::all_in(FLAG_CHANGE@, crate::chars::ByteClass::Atom),
        crate::chars::all_in(ANNOTATION_CHANGE@, crate::chars::ByteClass::Atom),
        crate::chars::all_in(MAILBOX_NAME@, crate::chars::ByteClass::Atom),
        crate::chars::all_in(SUBSCRIPTION_CHANGE@, crate::chars::ByteClass::Atom),
        crate::chars::all_in(MAILBOX_METADATA_CHANGE@, crate::chars::ByteClass::Atom),
        crate::chars::all_in(SERVER_METADATA_CHANGE@, crate::chars::ByteClass::Atom),
{
}

/// Where an atom that does not begin with a keyword stands, followed by a
/// byte that no atom holds, the keyword does not stand either, if it is
/// made of atom bytes.
proof fn lemma_atom_not_keyword(a: Seq<u8>, s: Seq<u8>, i: int, kw: Seq<u8>)
    requires
        0 <= i,
        i + a.len() < s.len(),
        s.subrange(i, i + a.len()) == a,
        !crate::chars::ByteClass::Atom.spec_has(s[i + a.len()]),
        !spec_keyword(a, 0, kw),
        crate::chars::all_in(kw, crate::chars::ByteClass::Atom),
    ensures
        !spec_keyword(s, i, kw),
{
    if spec_keyword(s, i, kw) {
        if kw.len() <= a.len() {
            assert forall|j: int| 0 <= j < kw.len() implies crate::chars::to_lower(#[trigger] a[0 + j]) == crate::chars::to_lower(kw[j]) by {
                assert(s[i + j] == a[j]);
            }
        } else {
            let j = a.len() as int;
            assert(crate::chars::to_lower(s[i + j]) == crate::chars::to_lower(kw[j]));
            assert(crate::chars::ByteClass::Atom.spec_has(kw[j]));
        }
    }
}

/// Whether an event can be written and read back: `MessageNew` with fetch
/// attributes that can be, and an other event that is an atom beginning
/// with no known name.
pub open spec fn writable_event(e: EventV) -> bool {
    match e {
        EventV::MessageNew(a) => forall|k: int| 0 <= k < a.len() ==> crate::fetch::writable_fetch_att(#[trigger] a[k]),
        EventV::Other(a) => a.len() > 0 && crate::chars::all_in(a, crate::chars::ByteClass::Atom) && no_event_name(a),
        _ => true,
    }
}

/// `MessageNew`, written at `i` and followed by a space or `)`, and, where
/// a space, by no `(`, reads back.
#[verifier::rlimit(100)]
#[verifier::spinoff_prover]
proof fn lemma_message_new_round_trip(a: Seq<MessageDataItemNameV>, s: Seq<u8>, i: int)
    requires
        writable_event(EventV::MessageNew(a)),
        0 <= i,
        i + spec_write_event(EventV::MessageNew(a)).len() + 1 < s.len(),
        s.subrange(i, i + spec_write_event(EventV::MessageNew(a)).len()) == spec_write_event(EventV::MessageNew(a)),
        s[i + spec_write_event(EventV::MessageNew(a)).len()] == SP || s[i + spec_write_event(EventV::MessageNew(a)).len()] == RPAREN,
        s[i + spec_write_event(EventV::MessageNew(a)).len()] == SP ==> s[i + spec_write_event(EventV::MessageNew(a)).len() + 1] != LPAREN,
    ensures
        spec_event(s, i) == Some((EventV::MessageNew(a), i + spec_write_event(EventV::MessageNew(a)).len())),
{
    let w = spec_write_event(EventV::MessageNew(a));
    if a.len() == 0 {
        assert(w =~= MESSAGE_NEW@);
        assert(a =~= seq![]);
        crate::chars::lemma_keyword_at(s, i, MESSAGE_NEW@);
        assert(s[i + 10] == SP ==> s[i + 11] != LPAREN);
    } else {
        let jw = join(written(FetchAttWriter, a), seq![SP]);
        assert(w =~= MESSAGE_NEW@ + seq![SP] + (seq![LPAREN] + jw + seq![RPAREN]));
        crate::chars::lemma_part(s, i, w, 0, 10);
        assert(w.subrange(0, 10) =~= MESSAGE_NEW@);
        crate::chars::lemma_keyword_at(s, i, MESSAGE_NEW@);
        assert(s[i + 10] == w[10]);
        crate::chars::lemma_part(s, i, w, 11, jw.len() + 2int);
        assert(w.subrange(11, 11 + jw.len() + 2int) =~= seq![LPAREN] + jw + seq![RPAREN]);
        crate::fetch::lemma_fetch_att_list_round_trip(a, s, i + 11);
    }
}

/// An event, written at `i` and followed by a space or `)`, reads back.
#[verifier::rlimit(100)]
#[verifier::spinoff_prover]
proof fn lemma_event_round_trip(e: EventV, s: Seq<u8>, i: int)
    requires
        writable_event(e),
        0 <= i,
        i + spec_write_event(e).len() + 1 < s.len(),
        s.subrange(i, i + spec_write_event(e).len()) == spec_write_event(e),
        s[i + spec_write_event(e).len()] == SP || s[i + spec_write_event(e).len()] == RPAREN,
        s[i + spec_write_event(e).len()] == SP ==> s[i + spec_write_event(e).len() + 1] != LPAREN,
    ensures
        spec_event(s, i) == Some((e, i + spec_write_event(e).len())),
        s[i] != LPAREN,
{
    let w = spec_write_event(e);
    let n = i + w.len();
    assert forall|k: int| 0 <= k < w.len() implies s[i + k] == #[trigger] w[k] by {
        assert(s[i + k] == s.subrange(i, n)[k]);
    }
    assert(s[i + 0] == w[0]);
    match e {
        EventV::MessageNew(a) => {
            lemma_message_new_round_trip(a, s, i);
        },
        EventV::MessageExpunge => {
            assert(w =~= MESSAGE_EXPUNGE@);
            assert(s[i + 7] == MESSAGE_EXPUNGE@[7]);
            lemma_kw_differs(s, i, MESSAGE_NEW@, 7);
            crate::chars::lemma_keyword_at(s, i, MESSAGE_EXPUNGE@);
        },
        EventV::FlagChange => {
            assert(w =~= FLAG_CHANGE@);
            assert(s[i + 0] == FLAG_CHANGE@[0]);
            lemma_kw_differs(s, i, MESSAGE_NEW@, 0);
            lemma_kw_differs(s, i, MESSAGE_EXPUNGE@, 0);
            crate::chars::lemma_keyword_at(s, i, FLAG_CHANGE@);
        },
        EventV::AnnotationChange => {
            assert(w =~= ANNOTATION_CHANGE@);
            assert(s[i + 0] == ANNOTATION_CHANGE@[0]);
            lemma_kw_differs(s, i, MESSAGE_NEW@, 0);
            lemma_kw_differs(s, i, MESSAGE_EXPUNGE@, 0);
            lemma_kw_differs(s, i, FLAG_CHANGE@, 0);
            crate::chars::lemma_keyword_at(s, i, ANNOTATION_CHANGE@);
        },
        EventV::MailboxName => {
            assert(w =~= MAILBOX_NAME@);
            assert(s[i + 0] == MAILBOX_NAME@[0]);
            assert(s[i + 1] == MAILBOX_NAME@[1]);
            lemma_kw_differs(s, i, MESSAGE_NEW@, 1);
            lemma_kw_differs(s, i, MESSAGE_EXPUNGE@, 1);
            lemma_kw_differs(s, i, FLAG_CHANGE@, 0);
            lemma_kw_differs(s, i, ANNOTATION_CHANGE@, 0);
            crate::chars::lemma_keyword_at(s, i, MAILBOX_NAME@);
        },
        EventV::SubscriptionChange => {
            assert(w =~= SUBSCRIPTION_CHANGE@);
            assert(s[i + 0] == SUBSCRIPTION_CHANGE@[0]);
            lemma_kw_differs(s, i, MESSAGE_NEW@, 0);
            lemma_kw_differs(s, i, MESSAGE_EXPUNGE@, 0);
            lemma_kw_differs(s, i, FLAG_CHANGE@, 0);
            lemma_kw_differs(s, i, ANNOTATION_CHANGE@, 0);
            lemma_kw_differs(s, i, MAILBOX_NAME@, 0);
            crate::chars::lemma_keyword_at(s, i, SUBSCRIPTION_CHANGE@);
        },
        EventV::MailboxMetadataChange => {
            assert(w =~= MAILBOX_METADATA_CHANGE@);
            assert(s[i + 0] == MAILBOX_METADATA_CHANGE@[0]);
            assert(s[i + 1] == MAILBOX_METADATA_CHANGE@[1]);
            assert(s[i + 7] == MAILBOX_METADATA_CHANGE@[7]);
            lemma_kw_differs(s, i, MESSAGE_NEW@, 1);
            lemma_kw_differs(s, i, MESSAGE_EXPUNGE@, 1);
            lemma_kw_differs(s, i, FLAG_CHANGE@, 0);
            lemma_kw_differs(s, i, ANNOTATION_CHANGE@, 0);
            lemma_kw_differs(s, i, MAILBOX_NAME@, 7);
            lemma_kw_differs(s, i, SUBSCRIPTION_CHANGE@, 0);
            crate::chars::lemma_keyword_at(s, i, MAILBOX_METADATA_CHANGE@);
        },
        EventV::ServerMetadataChange => {
            assert(w =~= SERVER_METADATA_CHANGE@);
            assert(s[i + 0] == SERVER_METADATA_CHANGE@[0]);
            assert(s[i + 1] == SERVER_METADATA_CHANGE@[1]);
            lemma_kw_differs(s, i, MESSAGE_NEW@, 0);
            lemma_kw_differs(s, i, MESSAGE_EXPUNGE@, 0);
            lemma_kw_differs(s, i, FLAG_CHANGE@, 0);
            lemma_kw_differs(s, i, ANNOTATION_CHANGE@, 0);
            lemma_kw_differs(s, i, MAILBOX_NAME@, 0);
            lemma_kw_differs(s, i, SUBSCRIPTION_CHANGE@, 1);
            lemma_kw_differs(s, i, MAILBOX_METADATA_CHANGE@, 0);
            crate::chars::lemma_keyword_at(s, i, SERVER_METADATA_CHANGE@);
        },
        EventV::Other(a) => {
            lemma_event_names_are_atoms();
            lemma_atom_not_keyword(a, s, i, MESSAGE_NEW@);
            lemma_atom_not_keyword(a, s, i, MESSAGE_EXPUNGE@);
            lemma_atom_not_keyword(a, s, i, FLAG_CHANGE@);
            lemma_atom_not_keyword(a, s, i, ANNOTATION_CHANGE@);
            lemma_atom_not_keyword(a, s, i, MAILBOX_NAME@);
            lemma_atom_not_keyword(a, s, i, SUBSCRIPTION_CHANGE@);
            lemma_atom_not_keyword(a, s, i, MAILBOX_METADATA_CHANGE@);
            lemma_atom_not_keyword(a, s, i, SERVER_METADATA_CHANGE@);
            crate::strings::lemma_atom_round_trip(a, s, i);
            assert(crate::chars::ByteClass::Atom.spec_has(a[0]));
        },
    }
}

/// Whether the events of a group can be written and read back.
pub open spec fn writable_events(ev: Option<Seq<EventV>>) -> bool {
    match ev {
        None => true,
        Some(es) => es.len() > 0 && forall|k: int| 0 <= k < es.len() ==> writable_event(#[trigger] es[k]),
    }
}

/// How the events of a group are written.
pub open spec fn spec_write_events(ev: Option<Seq<EventV>>) -> Seq<u8> {
    match ev {
        None => NONE@,
        Some(e) => seq![LPAREN] + join(written(EventWriter, e), seq![SP]) + seq![RPAREN],
    }
}

/// Events, each written after a space at `i`, and followed by `)`, read
/// back; where there is one, a space and no `(` stand at `i`.
#[verifier::rlimit(100)]
#[verifier::spinoff_prover]
proof fn lemma_events_after_round_trip(es: Seq<EventV>, s: Seq<u8>, i: int)
    requires
        forall|k: int| 0 <= k < es.len() ==> writable_event(#[trigger] es[k]),
        0 <= i,
        i + prefixed(written(EventWriter, es), seq![SP]).len() + 1 < s.len(),
        s.subrange(i, i + prefixed(written(EventWriter, es), seq![SP]).len())
            == prefixed(written(EventWriter, es), seq![SP]),
        s[i + prefixed(written(EventWriter, es), seq![SP]).len()] == RPAREN,
    ensures
        spec_preceded(EventRule, s, i, SP) == (es, i + prefixed(written(EventWriter, es), seq![SP]).len()),
        es.len() > 0 ==> s[i] == SP && s[i + 1] != LPAREN,
    decreases es.len(),
{
    let ws = written(EventWriter, es);
    let pw = prefixed(ws, seq![SP]);
    if es.len() == 0 {
        assert(pw == Seq::<u8>::empty());
        assert(es =~= seq![]);
    } else {
        crate::rule::lemma_prefixed_front(ws, seq![SP]);
        let w0 = ws[0];
        let rest_e = es.drop_first();
        let rest_w = ws.drop_first();
        let p2 = prefixed(rest_w, seq![SP]);
        assert(pw =~= seq![SP] + w0 + p2);
        assert(written(EventWriter, rest_e) =~= rest_w);
        assert(w0 == spec_write_event(es[0]));
        assert(s[i] == pw[0]);
        let j = i + 1 + w0.len();
        crate::chars::lemma_part(s, i, pw, 1, w0.len() as int);
        assert(pw.subrange(1, 1 + w0.len() as int) =~= w0);
        crate::chars::lemma_part(s, i, pw, 1 + w0.len() as int, p2.len() as int);
        assert(pw.subrange(1 + w0.len() as int, pw.len() as int) =~= p2);
        assert forall|k: int| 0 <= k < rest_e.len() implies writable_event(#[trigger] rest_e[k]) by {
            assert(rest_e[k] == es[k + 1]);
        }
        lemma_events_after_round_trip(rest_e, s, j);
        if rest_e.len() > 0 {
            crate::rule::lemma_prefixed_front(rest_w, seq![SP]);
            assert(s[j] == p2[0]);
        }
        lemma_event_round_trip(es[0], s, i + 1);
        assert(seq![es[0]] + rest_e =~= es);
    }
}

/// Events joined by spaces at `i`, and followed by `)` and one more byte,
/// read back.
#[verifier::rlimit(100)]
#[verifier::spinoff_prover]
proof fn lemma_events_joined_round_trip(es: Seq<EventV>, s: Seq<u8>, i: int)
    requires
        es.len() > 0,
        forall|k: int| 0 <= k < es.len() ==> writable_event(#[trigger] es[k]),
        0 <= i,
        i + join(written(EventWriter, es), seq![SP]).len() + 1 < s.len(),
        s.subrange(i, i + join(written(EventWriter, es), seq![SP]).len()) == join(written(EventWriter, es), seq![SP]),
        s[i + join(written(EventWriter, es), seq![SP]).len()] == RPAREN,
    ensures
        spec_separated(EventRule, s, i, SP) == Some((es, i + join(written(EventWriter, es), seq![SP]).len())),
{
    let ws = written(EventWriter, es);
    let jw = join(ws, seq![SP]);
    crate::rule::lemma_join_front(ws, seq![SP]);
    let w0 = ws[0];
    let rest_e = es.drop_first();
    let rest_w = ws.drop_first();
    let p2 = prefixed(rest_w, seq![SP]);
    assert(jw =~= w0 + p2);
    assert(written(EventWriter, rest_e) =~= rest_w);
    assert(w0 == spec_write_event(es[0]));
    let j = i + w0.len();
    crate::chars::lemma_part(s, i, jw, 0, w0.len() as int);
    assert(jw.subrange(0, w0.len() as int) =~= w0);
    crate::chars::lemma_part(s, i, jw, w0.len() as int, p2.len() as int);
    assert(jw.subrange(w0.len() as int, jw.len() as int) =~= p2);
    assert forall|k: int| 0 <= k < rest_e.len() implies writable_event(#[trigger] rest_e[k]) by {
        assert(rest_e[k] == es[k + 1]);
    }
    lemma_events_after_round_trip(rest_e, s, j);
    lemma_event_round_trip(es[0], s, i);
    assert(seq![es[0]] + rest_e =~= es);
}

/// A parenthesized list of events, written at `i` and followed by `)`,
/// reads back.
#[verifier::rlimit(100)]
#[verifier::spinoff_prover]
proof fn lemma_event_list_round_trip(es: Seq<EventV>, s: Seq<u8>, i: int)
    requires
        writable_events(Some(es)),
        0 <= i,
        i + spec_write_events(Some(es)).len() < s.len(),
        s.subrange(i, i + spec_write_events(Some(es)).len()) == spec_write_events(Some(es)),
        s[i + spec_write_events(Some(es)).len()] == RPAREN,
    ensures
        spec_paren_list(EventRule, s, i, false) == Some((es, i + spec_write_events(Some(es)).len())),
{
    let w = spec_write_events(Some(es));
    let jw = join(written(EventWriter, es), seq![SP]);
    assert(w =~= seq![LPAREN] + jw + seq![RPAREN]);
    assert(s[i] == w[0]);
    crate::chars::lemma_part(s, i, w, 1, jw.len() as int);
    assert(w.subrange(1, 1 + jw.len() as int) =~= jw);
    assert(s[i + 1 + jw.len()] == w[w.len() - 1]);
    lemma_events_joined_round_trip(es, s, i + 1);
}

/// The events of a group, written at `i` and followed by `)`, read back.
proof fn lemma_events_round_trip(ev: Option<Seq<EventV>>, s: Seq<u8>, i: int)
    requires
        writable_events(ev),
        0 <= i,
        i + spec_write_events(ev).len() < s.len(),
        s.subrange(i, i + spec_write_events(ev).len()) == spec_write_events(ev),
        s[i + spec_write_events(ev).len()] == RPAREN,
    ensures
        spec_events(s, i) == Some((ev, i + spec_write_events(ev).len())),
{
    reveal(spec_events);
    let w = spec_write_events(ev);
    assert(s[i] == w[0]);
    match ev {
        None => {
            crate::chars::lemma_keyword_at(s, i, NONE@);
        },
        Some(es) => {
            lemma_kw_differs(s, i, NONE@, 0);
            lemma_event_list_round_trip(es, s, i);
        },
    }
}

/// Whether an event group can be written and read back.
pub open spec fn writable_event_group(g: EventGroupV) -> bool {
    writable_filter(g.mailboxes) && writable_events(g.events)
}

/// What is written of an event group reads back as the same group: where
/// the bytes `spec_write_event_group(g)` stand at `i`, the event group read
/// at `i` is `g`, and it ends where they end. This holds of every group whose
/// other events are atoms that begin with no known event name (such a name
/// is read as the known event), and whose `MessageNew` fetch attributes
/// name parts without a zero, ranges of a length other than zero, and header
/// fields that can be written.
#[verifier::rlimit(100)]
pub proof fn lemma_event_group_round_trip(g: EventGroupV, s: Seq<u8>, i: int)
    requires
        writable_event_group(g),
        0 <= i,
        i + spec_write_event_group(g).len() <= s.len(),
        s.subrange(i, i + spec_write_event_group(g).len()) == spec_write_event_group(g),
    ensures
        spec_event_group(s, i) == Some((g, i + spec_write_event_group(g).len())),
{
    let w = spec_write_event_group(g);
    let wf = spec_write_filter_mailboxes(g.mailboxes);
    let we = spec_write_events(g.events);
    assert(w =~= seq![LPAREN] + wf + seq![SP] + we + seq![RPAREN]);
    assert(s[i] == w[0]);
    crate::chars::lemma_part(s, i, w, 1, wf.len() as int);
    assert(w.subrange(1, 1 + wf.len() as int) =~= wf);
    let j = i + 1 + wf.len();
    assert(s[j] == w[1 + wf.len() as int]);
    lemma_filter_round_trip(g.mailboxes, s, i + 1);
    crate::chars::lemma_part(s, i, w, 2 + wf.len() as int, we.len() as int);
    assert(w.subrange(2 + wf.len() as int, 2 + wf.len() + we.len() as int) =~= we);
    assert(s[j + 1 + we.len()] == w[w.len() - 1]);
    lemma_events_round_trip(g.events, s, j + 1);
}

/// Whether a `NOTIFY` command's arguments can be written and read back.
pub open spec fn writable_notify(set: Option<NotifySetV>) -> bool {
    match set {
        None => true,
        Some(n) => n.groups.len() > 0 && forall|k: int| 0 <= k < n.groups.len() ==> writable_event_group(#[trigger] n.groups[k]),
    }
}

/// The event groups of a `NOTIFY SET`, written at `i` and followed by CR,
/// read back.
#[verifier::rlimit(100)]
proof fn lemma_groups_round_trip(groups: Seq<EventGroupV>, s: Seq<u8>, i: int)
    requires
        groups.len() > 0,
        forall|k: int| 0 <= k < groups.len() ==> writable_event_group(#[trigger] groups[k]),
        0 <= i,
        i + join(written(EventGroupWriter, groups), seq![SP]).len() < s.len(),
        s.subrange(i, i + join(written(EventGroupWriter, groups), seq![SP]).len())
            == join(written(EventGroupWriter, groups), seq![SP]),
        s[i + join(written(EventGroupWriter, groups), seq![SP]).len()] == CR,
    ensures
        spec_separated(EventGroupRule, s, i, SP) == Some((groups, i + join(written(EventGroupWriter, groups), seq![SP]).len())),
{
    let ws = written(EventGroupWriter, groups);
    let after = |b: u8| b == SP || b == CR;
    assert forall|k: int, q: int| 0 <= k < groups.len() implies #[trigger] crate::rule::reads_at(EventGroupRule, s, q, groups[k], ws[k], after) by {
        assert(ws[k] == spec_write_event_group(groups[k]));
        if 0 <= q && q + ws[k].len() < s.len() && s.subrange(q, q + ws[k].len()) == ws[k] && after(s[q + ws[k].len()]) {
            lemma_event_group_round_trip(groups[k], s, q);
        }
    }
    crate::rule::lemma_separated_round_trip(EventGroupRule, groups, ws, s, i, SP, after);
}

/// `NOTIFY NONE` where it stands.
proof fn lemma_notify_route_none(s: Seq<u8>, i: int)
    requires
        spec_keyword(s, i, NOTIFY_SP@),
        spec_keyword(s, i + 7, NONE@),
    ensures
        spec_notify(s, i) == Some((None::<NotifySetV>, i + 11)),
{
    reveal(spec_notify);
}

/// `NOTIFY SET` where it stands.
proof fn lemma_notify_route_set(s: Seq<u8>, i: int, status: bool, groups: Seq<EventGroupV>, k: int)
    requires
        spec_keyword(s, i, NOTIFY_SP@),
        !spec_keyword(s, i + 7, NONE@),
        spec_keyword(s, i + 7, SET@),
        spec_keyword(s, i + 10, SP_STATUS@) == status,
        spec_byte(s, if status { i + 17 } else { i + 10 }, SP),
        spec_separated(EventGroupRule, s, if status { i + 18 } else { i + 11 }, SP) == Some((groups, k)),
    ensures
        spec_notify(s, i) == Some((Some(NotifySetV { status, groups }), k)),
{
    reveal(spec_notify);
}

/// `NOTIFY SET`, written at `i` and followed by CR, reads back.
#[verifier::rlimit(100)]
proof fn lemma_notify_set_round_trip(n: NotifySetV, s: Seq<u8>, i: int)
    requires
        writable_notify(Some(n)),
        0 <= i,
        i + spec_write_notify(Some(n)).len() < s.len(),
        s.subrange(i, i + spec_write_notify(Some(n)).len()) == spec_write_notify(Some(n)),
        s[i + spec_write_notify(Some(n)).len()] == CR,
    ensures
        spec_notify(s, i) == Some((Some(n), i + spec_write_notify(Some(n)).len())),
{
    let w = spec_write_notify(Some(n));
    let st = if n.status { SP_STATUS@ } else { Seq::<u8>::empty() };
    let ws = written(EventGroupWriter, n.groups);
    let pw = prefixed(ws, seq![SP]);
    let jw = join(ws, seq![SP]);
    crate::rule::lemma_prefixed_front(ws, seq![SP]);
    crate::rule::lemma_join_front(ws, seq![SP]);
    assert(pw =~= seq![SP] + jw);
    assert(w =~= NOTIFY_SP@ + SET@ + st + seq![SP] + jw);
    crate::chars::lemma_part(s, i, w, 0, 7);
    assert(w.subrange(0, 7) =~= NOTIFY_SP@);
    crate::chars::lemma_keyword_at(s, i, NOTIFY_SP@);
    assert(s[i + 7] == w[7]);
    assert(w[7] == SET@[0]);
    lemma_kw_differs(s, i + 7, NONE@, 0);
    crate::chars::lemma_part(s, i, w, 7, 3);
    assert(w.subrange(7, 10) =~= SET@);
    crate::chars::lemma_keyword_at(s, i + 7, SET@);
    assert(s[i + 10] == w[10]);
    assert(s[i + 11] == w[11]);
    if n.status {
        crate::chars::lemma_part(s, i, w, 10, 7);
        assert(w.subrange(10, 17) =~= SP_STATUS@);
        crate::chars::lemma_keyword_at(s, i + 10, SP_STATUS@);
    } else {
        lemma_kw_differs(s, i + 10, SP_STATUS@, 1);
    }
    let j = i + 10 + st.len();
    assert(s[j] == w[10 + st.len() as int]);
    crate::chars::lemma_part(s, i, w, 11 + st.len() as int, jw.len() as int);
    assert(w.subrange(11 + st.len() as int, w.len() as int) =~= jw);
    lemma_groups_round_trip(n.groups, s, j + 1);
    lemma_notify_route_set(s, i, n.status, n.groups, j + 1 + jw.len());
}

/// A `NOTIFY` command, written at `i` and followed by CR, reads back.
pub proof fn lemma_notify_round_trip(set: Option<NotifySetV>, s: Seq<u8>, i: int)
    requires
        writable_notify(set),
        0 <= i,
        i + spec_write_notify(set).len() < s.len(),
        s.subrange(i, i + spec_write_notify(set).len()) == spec_write_notify(set),
        s[i + spec_write_notify(set).len()] == CR,
    ensures
        spec_notify(s, i) == Some((set, i + spec_write_notify(set).len())),
{
    match set {
        None => {
            let w = spec_write_notify(set);
            crate::chars::lemma_part(s, i, w, 0, 7);
            assert(w.subrange(0, 7) =~= NOTIFY_SP@);
            crate::chars::lemma_keyword_at(s, i, NOTIFY_SP@);
            crate::chars::lemma_part(s, i, w, 7, 4);
            assert(w.subrange(7, 11) =~= NONE@);
            crate::chars::lemma_keyword_at(s, i + 7, NONE@);
            lemma_notify_route_none(s, i);
        },
        Some(n) => lemma_notify_set_round_trip(n, s, i),
    }
}

} // verus!

verus! {

// ---------------------------------------------------------------------
// What the words of `filter-mailboxes` stand for.

/// `inboxes` is written as the bytes `inboxes`, `personal` as `personal`
/// and `subscribed` as `subscribed`.
pub proof fn lemma_filter_words_written()
    ensures
        spec_write_filter_mailboxes(FilterMailboxesV::Inboxes) == seq![105u8, 110, 98, 111, 120, 101, 115],
        spec_write_filter_mailboxes(FilterMailboxesV::Personal) == seq![112u8, 101, 114, 115, 111, 110, 97, 108],
        spec_write_filter_mailboxes(FilterMailboxesV::Subscribed) == seq![115u8, 117, 98, 115, 99, 114, 105, 98, 101, 100],
{
    assert(INBOXES@ =~= seq![105u8, 110, 98, 111, 120, 101, 115]);
    assert(PERSONAL@ =~= seq![112u8, 101, 114, 115, 111, 110, 97, 108]);
    assert(SUBSCRIBED_W@ =~= seq![115u8, 117, 98, 115, 99, 114, 105, 98, 101, 100]);
}

/// The word `inboxes`, in any case, reads as `inboxes`, `personal` as
/// `personal` and `subscribed` as `subscribed`.
pub proof fn lemma_filter_words_read(s: Seq<u8>, i: int)
    ensures
        spec_keyword(s, i, seq![105u8, 110, 98, 111, 120, 101, 115])
            ==> spec_filter_mailboxes(s, i) == Some((FilterMailboxesV::Inboxes, i + 7)),
        spec_keyword(s, i, seq![112u8, 101, 114, 115, 111, 110, 97, 108])
            ==> spec_filter_mailboxes(s, i) == Some((FilterMailboxesV::Personal, i + 8)),
        spec_keyword(s, i, seq![115u8, 117, 98, 115, 99, 114, 105, 98, 101, 100])
            ==> spec_filter_mailboxes(s, i) == Some((FilterMailboxesV::Subscribed, i + 10)),
{
    reveal(spec_filter_mailboxes);
    let inb = seq![105u8, 110, 98, 111, 120, 101, 115];
    let per = seq![112u8, 101, 114, 115, 111, 110, 97, 108];
    let sub = seq![115u8, 117, 98, 115, 99, 114, 105, 98, 101, 100];
    assert(INBOXES@ =~= inb);
    assert(PERSONAL@ =~= per);
    assert(SUBSCRIBED_W@ =~= sub);
    if spec_keyword(s, i, inb) {
        assert(crate::chars::to_lower(s[i + 0]) == crate::chars::to_lower(inb[0]));
        crate::chars::lemma_not_keyword(s, i, SELECTED_DELAYED@, 0);
        crate::chars::lemma_not_keyword(s, i, SELECTED@, 0);
    }
    if spec_keyword(s, i, per) {
        assert(crate::chars::to_lower(s[i + 0]) == crate::chars::to_lower(per[0]));
        crate::chars::lemma_not_keyword(s, i, SELECTED_DELAYED@, 0);
        crate::chars::lemma_not_keyword(s, i, SELECTED@, 0);
        crate::chars::lemma_not_keyword(s, i, INBOXES@, 0);
    }
    if spec_keyword(s, i, sub) {
        assert(crate::chars::to_lower(s[i + 0]) == crate::chars::to_lower(sub[0]));
        assert(crate::chars::to_lower(s[i + 1]) == crate::chars::to_lower(sub[1]));
        crate::chars::lemma_not_keyword(s, i, SELECTED_DELAYED@, 1);
        crate::chars::lemma_not_keyword(s, i, SELECTED@, 1);
        crate::chars::lemma_not_keyword(s, i, INBOXES@, 0);
        crate::chars::lemma_not_keyword(s, i, PERSONAL@, 0);
    }
}

} // verus!

verus! {

// ---------------------------------------------------------------------
// The words each form is written with.

/// How each form of `filter-mailboxes` is written, its words spelled out byte by byte.
pub proof fn lemma_filter_mailboxes_written()
    ensures
        spec_write_filter_mailboxes(FilterMailboxesV::Selected) == seq![115u8, 101, 108, 101, 99, 116, 101, 100],
        spec_write_filter_mailboxes(FilterMailboxesV::SelectedDelayed) == seq![115u8, 101, 108, 101, 99, 116, 101, 100, 45, 100, 101, 108, 97, 121, 101, 100],
        spec_write_filter_mailboxes(FilterMailboxesV::Inboxes) == seq![105u8, 110, 98, 111, 120, 101, 115],
        spec_write_filter_mailboxes(FilterMailboxesV::Personal) == seq![112u8, 101, 114, 115, 111, 110, 97, 108],
        spec_write_filter_mailboxes(FilterMailboxesV::Subscribed) == seq![115u8, 117, 98, 115, 99, 114, 105, 98, 101, 100],
        forall|v: FilterMailboxesV| #![trigger spec_write_filter_mailboxes(v)] v matches FilterMailboxesV::Subtree(ms) ==> spec_write_filter_mailboxes(v) == seq![115u8, 117, 98, 116, 114, 101, 101, 32] + spec_write_mailboxes(ms),
        forall|v: FilterMailboxesV| #![trigger spec_write_filter_mailboxes(v)] v matches FilterMailboxesV::Mailboxes(ms) ==> spec_write_filter_mailboxes(v) == seq![109u8, 97, 105, 108, 98, 111, 120, 101, 115, 32] + spec_write_mailboxes(ms),
{
    assert(INBOXES@ =~= seq![105u8, 110, 98, 111, 120, 101, 115]);
    assert(MAILBOXES_SP@ =~= seq![109u8, 97, 105, 108, 98, 111, 120, 101, 115, 32]);
    assert(PERSONAL@ =~= seq![112u8, 101, 114, 115, 111, 110, 97, 108]);
    assert(SELECTED@ =~= seq![115u8, 101, 108, 101, 99, 116, 101, 100]);
    assert(SELECTED_DELAYED@ =~= seq![115u8, 101, 108, 101, 99, 116, 101, 100, 45, 100, 101, 108, 97, 121, 101, 100]);
    assert(SUBSCRIBED_W@ =~= seq![115u8, 117, 98, 115, 99, 114, 105, 98, 101, 100]);
    assert(SUBTREE_SP@ =~= seq![115u8, 117, 98, 116, 114, 101, 101, 32]);
}

/// How each form of an event is written, its words spelled out byte by byte.
pub proof fn lemma_event_written()
    ensures
        forall|v: EventV| #![trigger spec_write_event(v)] v matches EventV::MessageNew(a) ==> spec_write_event(v) == seq![77u8, 101, 115, 115, 97, 103, 101, 78, 101, 119] + if a.len() == 0 { seq![] } else { seq![SP, LPAREN] + join(written(FetchAttWriter, a), seq![SP]) + seq![RPAREN] },
        spec_write_event(EventV::MessageExpunge) == seq![77u8, 101, 115, 115, 97, 103, 101, 69, 120, 112, 117, 110, 103, 101],
        spec_write_event(EventV::FlagChange) == seq![70u8, 108, 97, 103, 67, 104, 97, 110, 103, 101],
        spec_write_event(EventV::AnnotationChange) == seq![65u8, 110, 110, 111, 116, 97, 116, 105, 111, 110, 67, 104, 97, 110, 103, 101],
        spec_write_event(EventV::MailboxName) == seq![77u8, 97, 105, 108, 98, 111, 120, 78, 97, 109, 101],
        spec_write_event(EventV::SubscriptionChange) == seq![83u8, 117, 98, 115, 99, 114, 105, 112, 116, 105, 111, 110, 67, 104, 97, 110, 103, 101],
        spec_write_event(EventV::MailboxMetadataChange) == seq![77u8, 97, 105, 108, 98, 111, 120, 77, 101, 116, 97, 100, 97, 116, 97, 67, 104, 97, 110, 103, 101],
        spec_write_event(EventV::ServerMetadataChange) == seq![83u8, 101, 114, 118, 101, 114, 77, 101, 116, 97, 100, 97, 116, 97, 67, 104, 97, 110, 103, 101],
{
    assert(ANNOTATION_CHANGE@ =~= seq![65u8, 110, 110, 111, 116, 97, 116, 105, 111, 110, 67, 104, 97, 110, 103, 101]);
    assert(FLAG_CHANGE@ =~= seq![70u8, 108, 97, 103, 67, 104, 97, 110, 103, 101]);
    assert(MAILBOX_METADATA_CHANGE@ =~= seq![77u8, 97, 105, 108, 98, 111, 120, 77, 101, 116, 97, 100, 97, 116, 97, 67, 104, 97, 110, 103, 101]);
    assert(MAILBOX_NAME@ =~= seq![77u8, 97, 105, 108, 98, 111, 120, 78, 97, 109, 101]);
    assert(MESSAGE_EXPUNGE@ =~= seq![77u8, 101, 115, 115, 97, 103, 101, 69, 120, 112, 117, 110, 103, 101]);
    assert(MESSAGE_NEW@ =~= seq![77u8, 101, 115, 115, 97, 103, 101, 78, 101, 119]);
    assert(SERVER_METADATA_CHANGE@ =~= seq![83u8, 101, 114, 118, 101, 114, 77, 101, 116, 97, 100, 97, 116, 97, 67, 104, 97, 110, 103, 101]);
    assert(SUBSCRIPTION_CHANGE@ =~= seq![83u8, 117, 98, 115, 99, 114, 105, 112, 116, 105, 111, 110, 67, 104, 97, 110, 103, 101]);
}

} // verus!
