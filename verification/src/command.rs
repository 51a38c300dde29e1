//! Commands: the command bodies this crate knows, how a command line is
//! read (`tag SP command-body CRLF`) and how it is written.

use vstd::prelude::*;

use crate::chars::{byte, keyword, put, spec_byte, spec_keyword, CR, LF, LPAREN, RPAREN, SP};
use crate::fetch::{
    read_macro_or_items, spec_flag_list, spec_macro_or_items, spec_write_flag_list, spec_write_macro_or_items,
    write_flag_list, write_macro_or_items, Flag, FlagRule, FlagV, MacroOrItemsV, MacroOrMessageDataItemNames,
    FLAGS,
};
use crate::mailbox::{
    read_list_patterns, read_list_return_opts, read_list_select_opts, read_mailbox, spec_list_patterns,
    spec_list_return_opts, spec_list_select_opts, spec_mailbox, spec_write_list_patterns,
    spec_write_list_return_opts, spec_write_list_select_opts, spec_write_mailbox, write_list_patterns,
    write_list_return_opts, write_list_select_opts, write_mailbox, ListPatterns, ListPatternsV, ListReturnOption,
    ListReturnOptionV, ListSelectOption, Mailbox, MailboxV, STATUS_SP,
};
use crate::notify::{read_notify, spec_notify, spec_write_notify, write_notify, NotifySet, NotifySetV};
use crate::rule::{
    join, read_paren_list, read_separated, read_view, spec_paren_list, spec_separated, write_joined, written,
    Rule,
};
use crate::search::{read_charset, spec_charset, Charset, SearchKey, SearchKeyRule, SearchKeyV, SearchKeyWriter};
use crate::search_return::{
    read_search_return_opts, spec_search_return_opts, spec_write_search_return_opts, write_search_return_opts,
    SearchReturnOption, SearchReturnOptionV, SEARCH, SP_CHARSET_SP,
};
use crate::sequence::{
    read_sequence_set_or_saved, spec_sequence_set_or_saved, spec_write_sequence_set_or_saved,
    write_sequence_set_or_saved, SequenceSetOrSaved, SequenceV,
};
use crate::status::{spec_status_att_name, StatusAttRule, StatusAttWriter, StatusDataItemName};
use crate::strings::{read_tag, spec_tag, spec_write_str, write_astring, AString, Atom, StrV, Tag};
use crate::urlauth::{
    read_genurlauth, read_resetkey, read_urlfetch, spec_genurlauth, spec_resetkey, spec_urlfetch,
    spec_write_genurlauth, spec_write_resetkey, spec_write_urlfetch, write_genurlauth, write_resetkey,
    write_urlfetch, UrlFetchArg, UrlFetchArgV,
};
use crate::vec1::Vec1;

verus! {

/// `SETACL `
pub const SETACL_SP: [u8; 7] = [83, 69, 84, 65, 67, 76, 32];
/// `DELETEACL `
pub const DELETEACL_SP: [u8; 10] = [68, 69, 76, 69, 84, 69, 65, 67, 76, 32];
/// `GETACL `
pub const GETACL_SP: [u8; 7] = [71, 69, 84, 65, 67, 76, 32];
/// `LISTRIGHTS `
pub const LISTRIGHTS_SP: [u8; 11] = [76, 73, 83, 84, 82, 73, 71, 72, 84, 83, 32];
/// `MYRIGHTS `
pub const MYRIGHTS_SP: [u8; 9] = [77, 89, 82, 73, 71, 72, 84, 83, 32];
/// `ACL `
pub const ACL_SP: [u8; 4] = [65, 67, 76, 32];
/// `UNAUTHENTICATE`
pub const UNAUTHENTICATE: [u8; 14] = [85, 78, 65, 85, 84, 72, 69, 78, 84, 73, 67, 65, 84, 69];
/// `LIST`
pub const LIST: [u8; 4] = [76, 73, 83, 84];
/// `FETCH `
pub const FETCH_SP: [u8; 6] = [70, 69, 84, 67, 72, 32];
/// `STORE `
pub const STORE_SP: [u8; 6] = [83, 84, 79, 82, 69, 32];
/// `COPY `
pub const COPY_SP: [u8; 5] = [67, 79, 80, 89, 32];
/// `MOVE `
pub const MOVE_SP: [u8; 5] = [77, 79, 86, 69, 32];
/// `EXPUNGE `
pub const EXPUNGE_SP: [u8; 8] = [69, 88, 80, 85, 78, 71, 69, 32];
/// `.SILENT`
pub const DOT_SILENT: [u8; 7] = [46, 83, 73, 76, 69, 78, 84];
/// `-`
pub const MINUS: u8 = 45;

/// How a `STORE` changes the flags.
#[derive(Clone, Copy, Debug, PartialEq, Eq, Hash, Structural)]
pub enum StoreType {
    /// `FLAGS`: replace them.
    Replace,
    /// `+FLAGS`: add these.
    Add,
    /// `-FLAGS`: remove these.
    Remove,
}

/// Whether a `STORE` is answered with the new flags.
#[derive(Clone, Copy, Debug, PartialEq, Eq, Hash, Structural)]
pub enum StoreResponse {
    /// Answer with `FETCH` responses.
    Answer,
    /// `.SILENT`: do not.
    Silent,
}

impl DeepView for StoreType {
    type V = StoreType;

    open spec fn deep_view(&self) -> StoreType {
        *self
    }
}

impl DeepView for StoreResponse {
    type V = StoreResponse;

    open spec fn deep_view(&self) -> StoreResponse {
        *self
    }
}

/// A command body: what a command asks, without its tag.
#[derive(Debug, PartialEq, Eq, Hash)]
pub enum CommandBody {
    /// `SETACL` (RFC 4314): `rights` is kept as written, its `+` or `-`
    /// included.
    SetAcl { mailbox: Mailbox, identifier: AString, rights: AString },
    /// `DELETEACL` (RFC 4314).
    DeleteAcl { mailbox: Mailbox, identifier: AString },
    /// `GETACL` (RFC 4314).
    GetAcl { mailbox: Mailbox },
    /// `LISTRIGHTS` (RFC 4314).
    ListRights { mailbox: Mailbox, identifier: AString },
    /// `MYRIGHTS` (RFC 4314).
    MyRights { mailbox: Mailbox },
    /// `NOTIFY` (RFC 5465): `None` for `NOTIFY NONE`.
    Notify { set: Option<NotifySet> },
    /// `UNAUTHENTICATE` (RFC 8437).
    Unauthenticate,
    /// `GENURLAUTH` (RFC 4467): URLs and their mechanisms.
    GenUrlAuth { urls: Vec1<(AString, Atom)> },
    /// `RESETKEY` (RFC 4467).
    ResetKey { mailbox: Option<Mailbox>, mechanisms: Vec<Atom> },
    /// `URLFETCH` (RFC 4467, RFC 5524).
    UrlFetch { urls: Vec1<UrlFetchArg> },
    /// `LIST`, extended as RFC 5258 extends it.
    List {
        reference: Mailbox,
        patterns: ListPatterns,
        selection_options: Option<Vec<ListSelectOption>>,
        return_options: Option<Vec<ListReturnOption>>,
    },
    /// `SEARCH` or `UID SEARCH`.
    Search {
        return_options: Option<Vec<SearchReturnOption>>,
        charset: Option<Charset>,
        criteria: Vec1<SearchKey>,
        uid: bool,
    },
    /// `FETCH` or `UID FETCH`.
    Fetch { sequence_set: SequenceSetOrSaved, macro_or_item_names: MacroOrMessageDataItemNames, uid: bool },
    /// `STATUS`.
    Status { mailbox: Mailbox, item_names: Vec<StatusDataItemName> },
    /// `STORE` or `UID STORE`.
    Store {
        sequence_set: SequenceSetOrSaved,
        kind: StoreType,
        response: StoreResponse,
        flags: Vec<Flag>,
        uid: bool,
    },
    /// `COPY` or `UID COPY`.
    Copy { sequence_set: SequenceSetOrSaved, mailbox: Mailbox, uid: bool },
    /// `MOVE` or `UID MOVE` (RFC 6851).
    Move { sequence_set: SequenceSetOrSaved, mailbox: Mailbox, uid: bool },
    /// `UID EXPUNGE` (RFC 4315).
    ExpungeUid { sequence_set: SequenceSetOrSaved },
}

/// The model of a [`CommandBody`].
pub enum CommandBodyV {
    SetAcl { mailbox: MailboxV, identifier: StrV, rights: StrV },
    DeleteAcl { mailbox: MailboxV, identifier: StrV },
    GetAcl { mailbox: MailboxV },
    ListRights { mailbox: MailboxV, identifier: StrV },
    MyRights { mailbox: MailboxV },
    Notify { set: Option<NotifySetV> },
    Unauthenticate,
    GenUrlAuth { urls: Seq<(StrV, Seq<u8>)> },
    ResetKey { mailbox: Option<MailboxV>, mechanisms: Seq<Seq<u8>> },
    UrlFetch { urls: Seq<UrlFetchArgV> },
    List {
        reference: MailboxV,
        patterns: ListPatternsV,
        selection_options: Option<Seq<ListSelectOption>>,
        return_options: Option<Seq<ListReturnOptionV>>,
    },
    Search {
        return_options: Option<Seq<SearchReturnOptionV>>,
        charset: Option<StrV>,
        criteria: Seq<SearchKeyV>,
        uid: bool,
    },
    Fetch { sequence_set: Option<Seq<SequenceV>>, items: MacroOrItemsV, uid: bool },
    Status { mailbox: MailboxV, item_names: Seq<StatusDataItemName> },
    Store {
        sequence_set: Option<Seq<SequenceV>>,
        kind: StoreType,
        response: StoreResponse,
        flags: Seq<FlagV>,
        uid: bool,
    },
    Copy { sequence_set: Option<Seq<SequenceV>>, mailbox: MailboxV, uid: bool },
    Move { sequence_set: Option<Seq<SequenceV>>, mailbox: MailboxV, uid: bool },
    ExpungeUid { sequence_set: Option<Seq<SequenceV>> },
}

impl DeepView for CommandBody {
    type V = CommandBodyV;

    open spec fn deep_view(&self) -> CommandBodyV {
        match self {
            CommandBody::SetAcl { mailbox, identifier, rights } => CommandBodyV::SetAcl {
                mailbox: mailbox.deep_view(),
                identifier: identifier.deep_view(),
                rights: rights.deep_view(),
            },
            CommandBody::DeleteAcl { mailbox, identifier } => CommandBodyV::DeleteAcl {
                mailbox: mailbox.deep_view(),
                identifier: identifier.deep_view(),
            },
            CommandBody::GetAcl { mailbox } => CommandBodyV::GetAcl { mailbox: mailbox.deep_view() },
            CommandBody::ListRights { mailbox, identifier } => CommandBodyV::ListRights {
                mailbox: mailbox.deep_view(),
                identifier: identifier.deep_view(),
            },
            CommandBody::MyRights { mailbox } => CommandBodyV::MyRights { mailbox: mailbox.deep_view() },
            CommandBody::Notify { set } => CommandBodyV::Notify { set: set.deep_view() },
            CommandBody::Unauthenticate => CommandBodyV::Unauthenticate,
            CommandBody::GenUrlAuth { urls } => CommandBodyV::GenUrlAuth { urls: urls.deep_view() },
            CommandBody::ResetKey { mailbox, mechanisms } => CommandBodyV::ResetKey {
                mailbox: mailbox.deep_view(),
                mechanisms: mechanisms.deep_view(),
            },
            CommandBody::UrlFetch { urls } => CommandBodyV::UrlFetch { urls: urls.deep_view() },
            CommandBody::List { reference, patterns, selection_options, return_options } => CommandBodyV::List {
                reference: reference.deep_view(),
                patterns: patterns.deep_view(),
                selection_options: selection_options.deep_view(),
                return_options: return_options.deep_view(),
            },
            CommandBody::Search { return_options, charset, criteria, uid } => CommandBodyV::Search {
                return_options: return_options.deep_view(),
                charset: charset.deep_view(),
                criteria: criteria.deep_view(),
                uid: *uid,
            },
            CommandBody::Fetch { sequence_set, macro_or_item_names, uid } => CommandBodyV::Fetch {
                sequence_set: sequence_set.deep_view(),
                items: macro_or_item_names.deep_view(),
                uid: *uid,
            },
            CommandBody::Status { mailbox, item_names } => CommandBodyV::Status {
                mailbox: mailbox.deep_view(),
                item_names: item_names.deep_view(),
            },
            CommandBody::Store { sequence_set, kind, response, flags, uid } => CommandBodyV::Store {
                sequence_set: sequence_set.deep_view(),
                kind: *kind,
                response: *response,
                flags: flags.deep_view(),
                uid: *uid,
            },
            CommandBody::Copy { sequence_set, mailbox, uid } => CommandBodyV::Copy {
                sequence_set: sequence_set.deep_view(),
                mailbox: mailbox.deep_view(),
                uid: *uid,
            },
            CommandBody::Move { sequence_set, mailbox, uid } => CommandBodyV::Move {
                sequence_set: sequence_set.deep_view(),
                mailbox: mailbox.deep_view(),
                uid: *uid,
            },
            CommandBody::ExpungeUid { sequence_set } => CommandBodyV::ExpungeUid {
                sequence_set: sequence_set.deep_view(),
            },
        }
    }
}

impl CommandBody {
    /// `UNAUTHENTICATE` (RFC 8437), which a client may send only where
    /// the server advertised the `UNAUTHENTICATE` capability.
    pub fn unauthenticate() -> (r: CommandBody)
        ensures
            r.deep_view() == CommandBodyV::Unauthenticate,
    {
        CommandBody::Unauthenticate
    }
}

/// A command: its tag and its body.
#[derive(Debug, PartialEq, Eq, Hash)]
pub struct Command {
    pub tag: Tag,
    pub body: CommandBody,
}

/// The model of a [`Command`].
pub struct CommandV {
    pub tag: Seq<u8>,
    pub body: CommandBodyV,
}

impl DeepView for Command {
    type V = CommandV;

    open spec fn deep_view(&self) -> CommandV {
        CommandV { tag: self.tag.deep_view(), body: self.body.deep_view() }
    }
}

} // verus!

verus! {

// ---------------------------------------------------------------------
// Reading.

/// `list = "LIST" [SP list-select-opts] SP mailbox SP mbox-or-pat [SP
/// list-return-opts]` (RFC 5258 Section 6).
#[verifier::opaque]
pub open spec fn spec_list_cmd(s: Seq<u8>, i: int) -> Option<(CommandBodyV, int)> {
    if spec_keyword(s, i, LIST@) {
        let (sel, j) = if spec_byte(s, i + 4, SP) {
            match spec_list_select_opts(s, i + 5) {
                Some((os, j)) => (Some(os), j),
                None => (None, i + 4),
            }
        } else {
            (None, i + 4)
        };
        if spec_byte(s, j, SP) {
            match spec_mailbox(s, j + 1) {
                Some((r, k)) => if spec_byte(s, k, SP) {
                    match spec_list_patterns(s, k + 1) {
                        Some((p, l)) => {
                            let (ret, m) = if spec_byte(s, l, SP) {
                                match spec_list_return_opts(s, l + 1) {
                                    Some((ro, m)) => (Some(ro), m),
                                    None => (None, l),
                                }
                            } else {
                                (None, l)
                            };
                            Some((CommandBodyV::List { reference: r, patterns: p, selection_options: sel, return_options: ret }, m))
                        },
                        None => None,
                    }
                } else {
                    None
                },
                None => None,
            }
        } else {
            None
        }
    } else {
        None
    }
}

fn read_list_cmd(s: &[u8], i: usize) -> (r: Option<(CommandBody, usize)>)
    requires
        i <= s@.len(),
    ensures
        read_view(r) == spec_list_cmd(s@, i as int),
        r matches Some((_, j)) ==> i < j <= s@.len(),
{
    proof {
        reveal(spec_list_cmd);
    }
    if !keyword(s, i, LIST.as_slice()) {
        return None;
    }
    let (sel, j) = if byte(s, i + 4, SP) {
        match read_list_select_opts(s, i + 5) {
            Some((os, j)) => (Some(os), j),
            None => (None, i + 4),
        }
    } else {
        (None, i + 4)
    };
    if !byte(s, j, SP) {
        return None;
    }
    let (r, k) = match read_mailbox(s, j + 1) {
        Some(x) => x,
        None => return None,
    };
    if !byte(s, k, SP) {
        return None;
    }
    let (p, l) = match read_list_patterns(s, k + 1) {
        Some(x) => x,
        None => return None,
    };
    let (ret, m) = if byte(s, l, SP) {
        match read_list_return_opts(s, l + 1) {
            Some((ro, m)) => (Some(ro), m),
            None => (None, l),
        }
    } else {
        (None, l)
    };
    Some((CommandBody::List { reference: r, patterns: p, selection_options: sel, return_options: ret }, m))
}

/// `search = "SEARCH" [search-return-opts] [SP "CHARSET" SP charset]
/// 1*(SP search-key)`, each key nested at most nine levels.
#[verifier::opaque]
pub open spec fn spec_search_cmd(s: Seq<u8>, i: int, uid: bool) -> Option<(CommandBodyV, int)> {
    if spec_keyword(s, i, SEARCH@) {
        let (ro, j1) = match spec_search_return_opts(s, i + 6) {
            Some((o, j)) => (Some(o), j),
            None => (None, i + 6),
        };
        let (cs, j2) = if spec_keyword(s, j1, SP_CHARSET_SP@) {
            match spec_charset(s, j1 + 9) {
                Some((c, j)) => (Some(c), j),
                None => (None, j1),
            }
        } else {
            (None, j1)
        };
        if spec_byte(s, j2, SP) {
            match spec_separated(SearchKeyRule { depth: 9 }, s, j2 + 1, SP) {
                Some((ks, k)) => Some((CommandBodyV::Search { return_options: ro, charset: cs, criteria: ks, uid }, k)),
                None => None,
            }
        } else {
            None
        }
    } else {
        None
    }
}

fn read_search_cmd(s: &[u8], i: usize, uid: bool) -> (r: Option<(CommandBody, usize)>)
    requires
        i <= s@.len(),
    ensures
        read_view(r) == spec_search_cmd(s@, i as int, uid),
        r matches Some((_, j)) ==> i < j <= s@.len(),
{
    proof {
        reveal(spec_search_cmd);
    }
    if !keyword(s, i, SEARCH.as_slice()) {
        return None;
    }
    let (ro, j1) = match read_search_return_opts(s, i + 6) {
        Some((o, j)) => (Some(o), j),
        None => (None, i + 6),
    };
    let (cs, j2) = if keyword(s, j1, SP_CHARSET_SP.as_slice()) {
        match read_charset(s, j1 + 9) {
            Some((c, j)) => (Some(c), j),
            None => (None, j1),
        }
    } else {
        (None, j1)
    };
    if !byte(s, j2, SP) {
        return None;
    }
    let rule = SearchKeyRule { depth: 9 };
    match read_separated(&rule, s, j2 + 1, SP) {
        Some((ks, k)) => match Vec1::from_vec_dv(ks) {
            Some(criteria) => Some((CommandBody::Search { return_options: ro, charset: cs, criteria, uid }, k)),
            None => None,
        },
        None => None,
    }
}

/// `fetch = "FETCH" SP sequence-set SP ("ALL" / "FULL" / "FAST" /
/// fetch-att / "(" fetch-att *(SP fetch-att) ")")`, `$` allowed for the
/// set (RFC 5182).
#[verifier::opaque]
pub open spec fn spec_fetch_cmd(s: Seq<u8>, i: int, uid: bool) -> Option<(CommandBodyV, int)> {
    if spec_keyword(s, i, FETCH_SP@) {
        match spec_sequence_set_or_saved(s, i + 6) {
            Some((q, j)) => if spec_byte(s, j, SP) {
                match spec_macro_or_items(s, j + 1) {
                    Some((m, k)) => Some((CommandBodyV::Fetch { sequence_set: q, items: m, uid }, k)),
                    None => None,
                }
            } else {
                None
            },
            None => None,
        }
    } else {
        None
    }
}

fn read_fetch_cmd(s: &[u8], i: usize, uid: bool) -> (r: Option<(CommandBody, usize)>)
    requires
        i <= s@.len(),
    ensures
        read_view(r) == spec_fetch_cmd(s@, i as int, uid),
        r matches Some((_, j)) ==> i < j <= s@.len(),
{
    proof {
        reveal(spec_fetch_cmd);
    }
    if !keyword(s, i, FETCH_SP.as_slice()) {
        return None;
    }
    match read_sequence_set_or_saved(s, i + 6) {
        Some((q, j)) => if byte(s, j, SP) {
            match read_macro_or_items(s, j + 1) {
                Some((m, k)) => Some((CommandBody::Fetch { sequence_set: q, macro_or_item_names: m, uid }, k)),
                None => None,
            }
        } else {
            None
        },
        None => None,
    }
}

/// `status = "STATUS" SP mailbox SP "(" [status-att *(SP status-att)] ")"`
#[verifier::opaque]
pub open spec fn spec_status_cmd(s: Seq<u8>, i: int) -> Option<(CommandBodyV, int)> {
    if spec_keyword(s, i, STATUS_SP@) {
        match spec_mailbox(s, i + 7) {
            Some((m, j)) => if spec_byte(s, j, SP) {
                match spec_paren_list(StatusAttRule, s, j + 1, true) {
                    Some((a, k)) => Some((CommandBodyV::Status { mailbox: m, item_names: a }, k)),
                    None => None,
                }
            } else {
                None
            },
            None => None,
        }
    } else {
        None
    }
}

fn read_status_cmd(s: &[u8], i: usize) -> (r: Option<(CommandBody, usize)>)
    requires
        i <= s@.len(),
    ensures
        read_view(r) == spec_status_cmd(s@, i as int),
        r matches Some((_, j)) ==> i < j <= s@.len(),
{
    proof {
        reveal(spec_status_cmd);
    }
    if !keyword(s, i, STATUS_SP.as_slice()) {
        return None;
    }
    match read_mailbox(s, i + 7) {
        Some((m, j)) => if byte(s, j, SP) {
            match read_paren_list(&StatusAttRule, s, j + 1, true) {
                Some((a, k)) => Some((CommandBody::Status { mailbox: m, item_names: a }, k)),
                None => None,
            }
        } else {
            None
        },
        None => None,
    }
}

/// `store-att-flags = (["+" / "-"] "FLAGS" [".SILENT"]) SP (flag-list /
/// (flag *(SP flag)))`
pub open spec fn spec_store_att_flags(s: Seq<u8>, i: int) -> Option<((StoreType, StoreResponse, Seq<FlagV>), int)> {
    let (kind, a) = if spec_byte(s, i, crate::strings::PLUS) {
        (StoreType::Add, i + 1)
    } else if spec_byte(s, i, MINUS) {
        (StoreType::Remove, i + 1)
    } else {
        (StoreType::Replace, i)
    };
    if spec_keyword(s, a, FLAGS@) {
        let (resp, c) = if spec_keyword(s, a + 5, DOT_SILENT@) {
            (StoreResponse::Silent, a + 12)
        } else {
            (StoreResponse::Answer, a + 5)
        };
        if spec_byte(s, c, SP) {
            match crate::search::alt(spec_flag_list(s, c + 1), spec_separated(FlagRule, s, c + 1, SP)) {
                Some((fs, d)) => Some(((kind, resp, fs), d)),
                None => None,
            }
        } else {
            None
        }
    } else {
        None
    }
}

fn read_store_att_flags(s: &[u8], i: usize) -> (r: Option<((StoreType, StoreResponse, Vec<Flag>), usize)>)
    requires
        i <= s@.len(),
    ensures
        read_view(r) == spec_store_att_flags(s@, i as int),
        r matches Some((_, j)) ==> i < j <= s@.len(),
{
    let (kind, a) = if byte(s, i, crate::strings::PLUS) {
        (StoreType::Add, i + 1)
    } else if byte(s, i, MINUS) {
        (StoreType::Remove, i + 1)
    } else {
        (StoreType::Replace, i)
    };
    if !keyword(s, a, FLAGS.as_slice()) {
        return None;
    }
    let (resp, c) = if keyword(s, a + 5, DOT_SILENT.as_slice()) {
        (StoreResponse::Silent, a + 12)
    } else {
        (StoreResponse::Answer, a + 5)
    };
    if !byte(s, c, SP) {
        return None;
    }
    let fl = match read_paren_list(&FlagRule, s, c + 1, true) {
        Some(x) => Some(x),
        None => read_separated(&FlagRule, s, c + 1, SP),
    };
    match fl {
        Some((fs, d)) => Some(((kind, resp, fs), d)),
        None => None,
    }
}

/// `store = "STORE" SP sequence-set SP store-att-flags`
#[verifier::opaque]
pub open spec fn spec_store_cmd(s: Seq<u8>, i: int, uid: bool) -> Option<(CommandBodyV, int)> {
    if spec_keyword(s, i, STORE_SP@) {
        match spec_sequence_set_or_saved(s, i + 6) {
            Some((q, j)) => if spec_byte(s, j, SP) {
                match spec_store_att_flags(s, j + 1) {
                    Some(((kind, response, flags), k)) => Some((CommandBodyV::Store { sequence_set: q, kind, response, flags, uid }, k)),
                    None => None,
                }
            } else {
                None
            },
            None => None,
        }
    } else {
        None
    }
}

fn read_store_cmd(s: &[u8], i: usize, uid: bool) -> (r: Option<(CommandBody, usize)>)
    requires
        i <= s@.len(),
    ensures
        read_view(r) == spec_store_cmd(s@, i as int, uid),
        r matches Some((_, j)) ==> i < j <= s@.len(),
{
    proof {
        reveal(spec_store_cmd);
    }
    if !keyword(s, i, STORE_SP.as_slice()) {
        return None;
    }
    match read_sequence_set_or_saved(s, i + 6) {
        Some((q, j)) => if byte(s, j, SP) {
            match read_store_att_flags(s, j + 1) {
                Some(((kind, response, flags), k)) => Some((CommandBody::Store { sequence_set: q, kind, response, flags, uid }, k)),
                None => None,
            }
        } else {
            None
        },
        None => None,
    }
}

/// `copy = "COPY" SP sequence-set SP mailbox` and `move = "MOVE" SP
/// sequence-set SP mailbox`: the set and the mailbox after the word `kw`.
pub open spec fn spec_set_and_mailbox(s: Seq<u8>, i: int, kw: Seq<u8>) -> Option<((Option<Seq<SequenceV>>, MailboxV), int)> {
    if spec_keyword(s, i, kw) {
        match spec_sequence_set_or_saved(s, i + kw.len()) {
            Some((q, j)) => if spec_byte(s, j, SP) {
                match spec_mailbox(s, j + 1) {
                    Some((m, k)) => Some(((q, m), k)),
                    None => None,
                }
            } else {
                None
            },
            None => None,
        }
    } else {
        None
    }
}

fn read_set_and_mailbox(s: &[u8], i: usize, kw: &[u8]) -> (r: Option<((SequenceSetOrSaved, Mailbox), usize)>)
    requires
        i <= s@.len(),
    ensures
        read_view(r) == spec_set_and_mailbox(s@, i as int, kw@),
        r matches Some((_, j)) ==> i < j <= s@.len(),
{
    if !keyword(s, i, kw) {
        return None;
    }
    match read_sequence_set_or_saved(s, i + kw.len()) {
        Some((q, j)) => if byte(s, j, SP) {
            match read_mailbox(s, j + 1) {
                Some((m, k)) => Some(((q, m), k)),
                None => None,
            }
        } else {
            None
        },
        None => None,
    }
}

/// `COPY` and `MOVE`, tried in this order.
pub open spec fn spec_copy_or_move(s: Seq<u8>, i: int, uid: bool) -> Option<(CommandBodyV, int)> {
    crate::search::alt(match spec_set_and_mailbox(s, i, COPY_SP@) {
        Some(((q, m), k)) => Some((CommandBodyV::Copy { sequence_set: q, mailbox: m, uid }, k)),
        None => None,
    }, match spec_set_and_mailbox(s, i, MOVE_SP@) {
        Some(((q, m), k)) => Some((CommandBodyV::Move { sequence_set: q, mailbox: m, uid }, k)),
        None => None,
    })
}

fn read_copy_or_move(s: &[u8], i: usize, uid: bool) -> (r: Option<(CommandBody, usize)>)
    requires
        i <= s@.len(),
    ensures
        read_view(r) == spec_copy_or_move(s@, i as int, uid),
        r matches Some((_, j)) ==> i < j <= s@.len(),
{
    if let Some(((q, m), k)) = read_set_and_mailbox(s, i, COPY_SP.as_slice()) {
        return Some((CommandBody::Copy { sequence_set: q, mailbox: m, uid }, k));
    }
    if let Some(((q, m), k)) = read_set_and_mailbox(s, i, MOVE_SP.as_slice()) {
        return Some((CommandBody::Move { sequence_set: q, mailbox: m, uid }, k));
    }
    None
}

/// `uid = "UID" SP (copy / move / fetch / search / store / uid-expunge)`,
/// with `uid-expunge = "EXPUNGE" SP sequence-set` (RFC 4315).
#[verifier::opaque]
pub open spec fn spec_uid_cmd(s: Seq<u8>, i: int) -> Option<(CommandBodyV, int)> {
    if spec_keyword(s, i, crate::search::UID_SP@) {
        let j = i + 4;
        let r = spec_copy_or_move(s, j, true);
        let r = crate::search::alt(r, spec_fetch_cmd(s, j, true));
        let r = crate::search::alt(r, spec_search_cmd(s, j, true));
        let r = crate::search::alt(r, spec_store_cmd(s, j, true));
        crate::search::alt(r, if spec_keyword(s, j, EXPUNGE_SP@) {
            match spec_sequence_set_or_saved(s, j + 8) {
                Some((q, k)) => Some((CommandBodyV::ExpungeUid { sequence_set: q }, k)),
                None => None,
            }
        } else {
            None
        })
    } else {
        None
    }
}

fn read_uid_cmd(s: &[u8], i: usize) -> (r: Option<(CommandBody, usize)>)
    requires
        i <= s@.len(),
    ensures
        read_view(r) == spec_uid_cmd(s@, i as int),
        r matches Some((_, j)) ==> i < j <= s@.len(),
{
    proof {
        reveal(spec_uid_cmd);
    }
    if !keyword(s, i, crate::search::UID_SP.as_slice()) {
        return None;
    }
    let j = i + 4;
    if let Some(x) = read_copy_or_move(s, j, true) {
        return Some(x);
    }
    if let Some(x) = read_fetch_cmd(s, j, true) {
        return Some(x);
    }
    if let Some(x) = read_search_cmd(s, j, true) {
        return Some(x);
    }
    if let Some(x) = read_store_cmd(s, j, true) {
        return Some(x);
    }
    if keyword(s, j, EXPUNGE_SP.as_slice()) {
        if let Some((q, k)) = read_sequence_set_or_saved(s, j + 8) {
            return Some((CommandBody::ExpungeUid { sequence_set: q }, k));
        }
    }
    None
}

/// `command-body`: the commands in the order they are tried.
pub open spec fn spec_command_body(s: Seq<u8>, i: int) -> Option<(CommandBodyV, int)> {
    let r = crate::acl::spec_acl_command(s, i);
    let r = crate::search::alt(r, match spec_notify(s, i) {
        Some((set, j)) => Some((CommandBodyV::Notify { set }, j)),
        None => None,
    });
    let r = crate::search::alt(r, crate::search::flag(s, i, UNAUTHENTICATE@, CommandBodyV::Unauthenticate));
    let r = crate::search::alt(r, match spec_genurlauth(s, i) {
        Some((urls, j)) => Some((CommandBodyV::GenUrlAuth { urls }, j)),
        None => None,
    });
    let r = crate::search::alt(r, match spec_resetkey(s, i) {
        Some(((mailbox, mechanisms), j)) => Some((CommandBodyV::ResetKey { mailbox, mechanisms }, j)),
        None => None,
    });
    let r = crate::search::alt(r, match spec_urlfetch(s, i) {
        Some((urls, j)) => Some((CommandBodyV::UrlFetch { urls }, j)),
        None => None,
    });
    let r = crate::search::alt(r, spec_list_cmd(s, i));
    let r = crate::search::alt(r, spec_search_cmd(s, i, false));
    let r = crate::search::alt(r, spec_fetch_cmd(s, i, false));
    let r = crate::search::alt(r, spec_status_cmd(s, i));
    let r = crate::search::alt(r, spec_store_cmd(s, i, false));
    let r = crate::search::alt(r, spec_copy_or_move(s, i, false));
    crate::search::alt(r, spec_uid_cmd(s, i))
}

/// Reads a command body at `i`.
pub fn read_command_body(s: &[u8], i: usize) -> (r: Option<(CommandBody, usize)>)
    requires
        i <= s@.len(),
    ensures
        read_view(r) == spec_command_body(s@, i as int),
        r matches Some((_, j)) ==> i < j <= s@.len(),
{
    if let Some(x) = crate::acl::read_acl_command(s, i) {
        return Some(x);
    }
    if let Some((set, j)) = read_notify(s, i) {
        return Some((CommandBody::Notify { set }, j));
    }
    if keyword(s, i, UNAUTHENTICATE.as_slice()) {
        return Some((CommandBody::Unauthenticate, i + 14));
    }
    if let Some((urls, j)) = read_genurlauth(s, i) {
        return Some((CommandBody::GenUrlAuth { urls }, j));
    }
    if let Some(((mailbox, mechanisms), j)) = read_resetkey(s, i) {
        return Some((CommandBody::ResetKey { mailbox, mechanisms }, j));
    }
    if let Some((urls, j)) = read_urlfetch(s, i) {
        return Some((CommandBody::UrlFetch { urls }, j));
    }
    if let Some(x) = read_list_cmd(s, i) {
        return Some(x);
    }
    if let Some(x) = read_search_cmd(s, i, false) {
        return Some(x);
    }
    if let Some(x) = read_fetch_cmd(s, i, false) {
        return Some(x);
    }
    if let Some(x) = read_status_cmd(s, i) {
        return Some(x);
    }
    if let Some(x) = read_store_cmd(s, i, false) {
        return Some(x);
    }
    if let Some(x) = read_copy_or_move(s, i, false) {
        return Some(x);
    }
    read_uid_cmd(s, i)
}

/// `command = tag SP command-body CRLF`: the command and where the line
/// ends.
pub open spec fn spec_command(s: Seq<u8>, i: int) -> Option<(CommandV, int)> {
    match spec_tag(s, i) {
        Some((t, j)) => if spec_byte(s, j, SP) {
            match spec_command_body(s, j + 1) {
                Some((b, k)) => if spec_byte(s, k, CR) && spec_byte(s, k + 1, LF) {
                    Some((CommandV { tag: t, body: b }, k + 2))
                } else {
                    None
                },
                None => None,
            }
        } else {
            None
        },
        None => None,
    }
}

/// Reads a command at `i`.
pub fn read_command(s: &[u8], i: usize) -> (r: Option<(Command, usize)>)
    requires
        i <= s@.len(),
    ensures
        read_view(r) == spec_command(s@, i as int),
        r matches Some((_, j)) ==> i < j <= s@.len(),
{
    match read_tag(s, i) {
        Some((tag, j)) => if byte(s, j, SP) {
            match read_command_body(s, j + 1) {
                Some((body, k)) => if byte(s, k, CR) && byte(s, k + 1, LF) {
                    Some((Command { tag, body }, k + 2))
                } else {
                    None
                },
                None => None,
            }
        } else {
            None
        },
        None => None,
    }
}

} // verus!

verus! {

// ---------------------------------------------------------------------
// Writing.

/// `UID ` before a command that names messages by UID.
pub open spec fn spec_uid_prefix(uid: bool) -> Seq<u8> {
    if uid {
        crate::search::UID_SP@
    } else {
        seq![]
    }
}

fn write_uid_prefix(out: &mut Vec<u8>, uid: bool)
    ensures
        final(out)@ == old(out)@ + spec_uid_prefix(uid),
{
    if uid {
        put(out, crate::search::UID_SP.as_slice());
    } else {
        assert(out@ =~= out@ + spec_uid_prefix(uid));
    }
}

/// How a `STORE` says what it does to the flags.
pub open spec fn spec_write_store_kind(kind: StoreType, response: StoreResponse) -> Seq<u8> {
    (match kind {
        StoreType::Replace => seq![],
        StoreType::Add => seq![crate::strings::PLUS],
        StoreType::Remove => seq![MINUS],
    }) + FLAGS@ + match response {
        StoreResponse::Answer => seq![],
        StoreResponse::Silent => DOT_SILENT@,
    }
}

/// How a command body is written.
pub open spec fn spec_write_command_body(b: CommandBodyV) -> Seq<u8> {
    match b {
        CommandBodyV::SetAcl { mailbox, identifier, rights } => SETACL_SP@ + spec_write_mailbox(mailbox) + seq![SP]
            + spec_write_str(identifier) + seq![SP] + spec_write_str(rights),
        CommandBodyV::DeleteAcl { mailbox, identifier } => DELETEACL_SP@ + spec_write_mailbox(mailbox) + seq![SP]
            + spec_write_str(identifier),
        CommandBodyV::GetAcl { mailbox } => GETACL_SP@ + spec_write_mailbox(mailbox),
        CommandBodyV::ListRights { mailbox, identifier } => LISTRIGHTS_SP@ + spec_write_mailbox(mailbox) + seq![SP]
            + spec_write_str(identifier),
        CommandBodyV::MyRights { mailbox } => MYRIGHTS_SP@ + spec_write_mailbox(mailbox),
        CommandBodyV::Notify { set } => spec_write_notify(set),
        CommandBodyV::Unauthenticate => UNAUTHENTICATE@,
        CommandBodyV::GenUrlAuth { urls } => spec_write_genurlauth(urls),
        CommandBodyV::ResetKey { mailbox, mechanisms } => spec_write_resetkey(mailbox, mechanisms),
        CommandBodyV::UrlFetch { urls } => spec_write_urlfetch(urls),
        CommandBodyV::List { reference, patterns, selection_options, return_options } => LIST@ + (match selection_options {
            Some(os) => seq![SP] + spec_write_list_select_opts(os),
            None => seq![],
        }) + seq![SP] + spec_write_mailbox(reference) + seq![SP] + spec_write_list_patterns(patterns) + match return_options {
            Some(ro) => seq![SP] + spec_write_list_return_opts(ro),
            None => seq![],
        },
        CommandBodyV::Search { return_options, charset, criteria, uid } => spec_uid_prefix(uid) + SEARCH@ + (match return_options {
            Some(ro) => spec_write_search_return_opts(ro),
            None => seq![],
        }) + (match charset {
            Some(cs) => SP_CHARSET_SP@ + spec_write_str(cs),
            None => seq![],
        }) + seq![SP] + join(written(SearchKeyWriter, criteria), seq![SP]),
        CommandBodyV::Fetch { sequence_set, items, uid } => spec_uid_prefix(uid) + FETCH_SP@
            + spec_write_sequence_set_or_saved(sequence_set) + seq![SP] + spec_write_macro_or_items(items),
        CommandBodyV::Status { mailbox, item_names } => STATUS_SP@ + spec_write_mailbox(mailbox) + seq![SP, LPAREN]
            + join(written(StatusAttWriter, item_names), seq![SP]) + seq![RPAREN],
        CommandBodyV::Store { sequence_set, kind, response, flags, uid } => spec_uid_prefix(uid) + STORE_SP@
            + spec_write_sequence_set_or_saved(sequence_set) + seq![SP] + spec_write_store_kind(kind, response) + seq![SP]
            + spec_write_flag_list(flags),
        CommandBodyV::Copy { sequence_set, mailbox, uid } => spec_uid_prefix(uid) + COPY_SP@
            + spec_write_sequence_set_or_saved(sequence_set) + seq![SP] + spec_write_mailbox(mailbox),
        CommandBodyV::Move { sequence_set, mailbox, uid } => spec_uid_prefix(uid) + MOVE_SP@
            + spec_write_sequence_set_or_saved(sequence_set) + seq![SP] + spec_write_mailbox(mailbox),
        CommandBodyV::ExpungeUid { sequence_set } => crate::search::UID_SP@ + EXPUNGE_SP@
            + spec_write_sequence_set_or_saved(sequence_set),
    }
}

#[verifier::rlimit(100)]
fn write_set_acl_body(out: &mut Vec<u8>, b: &CommandBody)
    requires
        b is SetAcl,
    ensures
        final(out)@ == old(out)@ + spec_write_command_body(b.deep_view()),
{
    let ghost start = old(out)@;
    match b {
        CommandBody::SetAcl { mailbox, identifier, rights } => {
            put(out, SETACL_SP.as_slice());
            write_mailbox(out, mailbox);
            out.push(SP);
            write_astring(out, identifier);
            out.push(SP);
            write_astring(out, rights);
            assert(out@ =~= start + spec_write_command_body(b.deep_view()));
        },
        _ => {},
    }
}

#[verifier::rlimit(100)]
fn write_delete_acl_body(out: &mut Vec<u8>, b: &CommandBody)
    requires
        b is DeleteAcl,
    ensures
        final(out)@ == old(out)@ + spec_write_command_body(b.deep_view()),
{
    let ghost start = old(out)@;
    match b {
        CommandBody::DeleteAcl { mailbox, identifier } => {
            put(out, DELETEACL_SP.as_slice());
            write_mailbox(out, mailbox);
            out.push(SP);
            write_astring(out, identifier);
            assert(out@ =~= start + spec_write_command_body(b.deep_view()));
        },
        _ => {},
    }
}

#[verifier::rlimit(100)]
fn write_get_acl_body(out: &mut Vec<u8>, b: &CommandBody)
    requires
        b is GetAcl,
    ensures
        final(out)@ == old(out)@ + spec_write_command_body(b.deep_view()),
{
    let ghost start = old(out)@;
    match b {
        CommandBody::GetAcl { mailbox } => {
            put(out, GETACL_SP.as_slice());
            write_mailbox(out, mailbox);
            assert(out@ =~= start + spec_write_command_body(b.deep_view()));
        },
        _ => {},
    }
}

#[verifier::rlimit(100)]
fn write_list_rights_body(out: &mut Vec<u8>, b: &CommandBody)
    requires
        b is ListRights,
    ensures
        final(out)@ == old(out)@ + spec_write_command_body(b.deep_view()),
{
    let ghost start = old(out)@;
    match b {
        CommandBody::ListRights { mailbox, identifier } => {
            put(out, LISTRIGHTS_SP.as_slice());
            write_mailbox(out, mailbox);
            out.push(SP);
            write_astring(out, identifier);
            assert(out@ =~= start + spec_write_command_body(b.deep_view()));
        },
        _ => {},
    }
}

#[verifier::rlimit(100)]
fn write_my_rights_body(out: &mut Vec<u8>, b: &CommandBody)
    requires
        b is MyRights,
    ensures
        final(out)@ == old(out)@ + spec_write_command_body(b.deep_view()),
{
    let ghost start = old(out)@;
    match b {
        CommandBody::MyRights { mailbox } => {
            put(out, MYRIGHTS_SP.as_slice());
            write_mailbox(out, mailbox);
            assert(out@ =~= start + spec_write_command_body(b.deep_view()));
        },
        _ => {},
    }
}

#[verifier::rlimit(100)]
fn write_notify_body(out: &mut Vec<u8>, b: &CommandBody)
    requires
        b is Notify,
    ensures
        final(out)@ == old(out)@ + spec_write_command_body(b.deep_view()),
{
    let ghost start = old(out)@;
    match b {
        CommandBody::Notify { set } => {
            write_notify(out, set);
            assert(out@ =~= start + spec_write_command_body(b.deep_view()));
        },
        _ => {},
    }
}

#[verifier::rlimit(100)]
fn write_unauthenticate_body(out: &mut Vec<u8>, b: &CommandBody)
    requires
        b is Unauthenticate,
    ensures
        final(out)@ == old(out)@ + spec_write_command_body(b.deep_view()),
{
    let ghost start = old(out)@;
    match b {
        CommandBody::Unauthenticate => {
            put(out, UNAUTHENTICATE.as_slice());
            assert(out@ =~= start + spec_write_command_body(b.deep_view()));
        },
        _ => {},
    }
}

#[verifier::rlimit(100)]
fn write_gen_url_auth_body(out: &mut Vec<u8>, b: &CommandBody)
    requires
        b is GenUrlAuth,
    ensures
        final(out)@ == old(out)@ + spec_write_command_body(b.deep_view()),
{
    let ghost start = old(out)@;
    match b {
        CommandBody::GenUrlAuth { urls } => {
            write_genurlauth(out, urls);
            assert(out@ =~= start + spec_write_command_body(b.deep_view()));
        },
        _ => {},
    }
}

#[verifier::rlimit(100)]
fn write_reset_key_body(out: &mut Vec<u8>, b: &CommandBody)
    requires
        b is ResetKey,
    ensures
        final(out)@ == old(out)@ + spec_write_command_body(b.deep_view()),
{
    let ghost start = old(out)@;
    match b {
        CommandBody::ResetKey { mailbox, mechanisms } => {
            write_resetkey(out, mailbox, mechanisms);
            assert(out@ =~= start + spec_write_command_body(b.deep_view()));
        },
        _ => {},
    }
}

#[verifier::rlimit(100)]
fn write_url_fetch_body(out: &mut Vec<u8>, b: &CommandBody)
    requires
        b is UrlFetch,
    ensures
        final(out)@ == old(out)@ + spec_write_command_body(b.deep_view()),
{
    let ghost start = old(out)@;
    match b {
        CommandBody::UrlFetch { urls } => {
            write_urlfetch(out, urls);
            assert(out@ =~= start + spec_write_command_body(b.deep_view()));
        },
        _ => {},
    }
}

#[verifier::rlimit(100)]
fn write_list_body(out: &mut Vec<u8>, b: &CommandBody)
    requires
        b is List,
    ensures
        final(out)@ == old(out)@ + spec_write_command_body(b.deep_view()),
{
    let ghost start = old(out)@;
    match b {
        CommandBody::List { reference, patterns, selection_options, return_options } => {
            put(out, LIST.as_slice());
            match selection_options {
                Some(os) => {
                    out.push(SP);
                    write_list_select_opts(out, os.as_slice());
                },
                None => {},
            }
            out.push(SP);
            write_mailbox(out, reference);
            out.push(SP);
            write_list_patterns(out, patterns);
            match return_options {
                Some(ro) => {
                    out.push(SP);
                    write_list_return_opts(out, ro.as_slice());
                },
                None => {},
            }
            assert(out@ =~= start + spec_write_command_body(b.deep_view()));
        },
        _ => {},
    }
}

#[verifier::rlimit(100)]
fn write_search_body(out: &mut Vec<u8>, b: &CommandBody)
    requires
        b is Search,
    ensures
        final(out)@ == old(out)@ + spec_write_command_body(b.deep_view()),
{
    let ghost start = old(out)@;
    match b {
        CommandBody::Search { return_options, charset, criteria, uid } => {
            write_uid_prefix(out, *uid);
            put(out, SEARCH.as_slice());
            match return_options {
                Some(ro) => write_search_return_opts(out, ro),
                None => {},
            }
            match charset {
                Some(cs) => {
                    put(out, SP_CHARSET_SP.as_slice());
                    crate::search::write_charset(out, cs);
                },
                None => {},
            }
            out.push(SP);
            let sp = [SP];
            write_joined(&SearchKeyWriter, out, criteria.as_slice_dv(), sp.as_slice());
            assert(sp@ =~= seq![SP]);
            assert(out@ =~= start + spec_write_command_body(b.deep_view()));
        },
        _ => {},
    }
}

#[verifier::rlimit(100)]
fn write_fetch_body(out: &mut Vec<u8>, b: &CommandBody)
    requires
        b is Fetch,
    ensures
        final(out)@ == old(out)@ + spec_write_command_body(b.deep_view()),
{
    let ghost start = old(out)@;
    match b {
        CommandBody::Fetch { sequence_set, macro_or_item_names, uid } => {
            write_uid_prefix(out, *uid);
            put(out, FETCH_SP.as_slice());
            write_sequence_set_or_saved(out, sequence_set);
            out.push(SP);
            write_macro_or_items(out, macro_or_item_names);
            assert(out@ =~= start + spec_write_command_body(b.deep_view()));
        },
        _ => {},
    }
}

#[verifier::rlimit(100)]
fn write_status_body(out: &mut Vec<u8>, b: &CommandBody)
    requires
        b is Status,
    ensures
        final(out)@ == old(out)@ + spec_write_command_body(b.deep_view()),
{
    let ghost start = old(out)@;
    match b {
        CommandBody::Status { mailbox, item_names } => {
            put(out, STATUS_SP.as_slice());
            write_mailbox(out, mailbox);
            out.push(SP);
            out.push(LPAREN);
            let sp = [SP];
            write_joined(&StatusAttWriter, out, item_names.as_slice(), sp.as_slice());
            out.push(RPAREN);
            assert(sp@ =~= seq![SP]);
            assert(out@ =~= start + spec_write_command_body(b.deep_view()));
        },
        _ => {},
    }
}

#[verifier::rlimit(100)]
fn write_store_body(out: &mut Vec<u8>, b: &CommandBody)
    requires
        b is Store,
    ensures
        final(out)@ == old(out)@ + spec_write_command_body(b.deep_view()),
{
    let ghost start = old(out)@;
    match b {
        CommandBody::Store { sequence_set, kind, response, flags, uid } => {
            write_uid_prefix(out, *uid);
            put(out, STORE_SP.as_slice());
            write_sequence_set_or_saved(out, sequence_set);
            out.push(SP);
            let ghost a = out@;
            match kind {
                StoreType::Replace => {},
                StoreType::Add => out.push(crate::strings::PLUS),
                StoreType::Remove => out.push(MINUS),
            }
            put(out, FLAGS.as_slice());
            match response {
                StoreResponse::Answer => {},
                StoreResponse::Silent => put(out, DOT_SILENT.as_slice()),
            }
            assert(out@ =~= a + spec_write_store_kind(*kind, *response));
            out.push(SP);
            write_flag_list(out, flags.as_slice());
            assert(out@ =~= start + spec_write_command_body(b.deep_view()));
        },
        _ => {},
    }
}

#[verifier::rlimit(100)]
fn write_copy_body(out: &mut Vec<u8>, b: &CommandBody)
    requires
        b is Copy,
    ensures
        final(out)@ == old(out)@ + spec_write_command_body(b.deep_view()),
{
    let ghost start = old(out)@;
    match b {
        CommandBody::Copy { sequence_set, mailbox, uid } => {
            write_uid_prefix(out, *uid);
            put(out, COPY_SP.as_slice());
            write_sequence_set_or_saved(out, sequence_set);
            out.push(SP);
            write_mailbox(out, mailbox);
            assert(out@ =~= start + spec_write_command_body(b.deep_view()));
        },
        _ => {},
    }
}

#[verifier::rlimit(100)]
fn write_move_body(out: &mut Vec<u8>, b: &CommandBody)
    requires
        b is Move,
    ensures
        final(out)@ == old(out)@ + spec_write_command_body(b.deep_view()),
{
    let ghost start = old(out)@;
    match b {
        CommandBody::Move { sequence_set, mailbox, uid } => {
            write_uid_prefix(out, *uid);
            put(out, MOVE_SP.as_slice());
            write_sequence_set_or_saved(out, sequence_set);
            out.push(SP);
            write_mailbox(out, mailbox);
            assert(out@ =~= start + spec_write_command_body(b.deep_view()));
        },
        _ => {},
    }
}

#[verifier::rlimit(100)]
fn write_expunge_uid_body(out: &mut Vec<u8>, b: &CommandBody)
    requires
        b is ExpungeUid,
    ensures
        final(out)@ == old(out)@ + spec_write_command_body(b.deep_view()),
{
    let ghost start = old(out)@;
    match b {
        CommandBody::ExpungeUid { sequence_set } => {
            put(out, crate::search::UID_SP.as_slice());
            put(out, EXPUNGE_SP.as_slice());
            write_sequence_set_or_saved(out, sequence_set);
            assert(out@ =~= start + spec_write_command_body(b.deep_view()));
        },
        _ => {},
    }
}

/// Writes a command body.
pub fn write_command_body(out: &mut Vec<u8>, b: &CommandBody)
    ensures
        final(out)@ == old(out)@ + spec_write_command_body(b.deep_view()),
{
    match b {
        CommandBody::SetAcl { .. } => write_set_acl_body(out, b),
        CommandBody::DeleteAcl { .. } => write_delete_acl_body(out, b),
        CommandBody::GetAcl { .. } => write_get_acl_body(out, b),
        CommandBody::ListRights { .. } => write_list_rights_body(out, b),
        CommandBody::MyRights { .. } => write_my_rights_body(out, b),
        CommandBody::Notify { .. } => write_notify_body(out, b),
        CommandBody::Unauthenticate { .. } => write_unauthenticate_body(out, b),
        CommandBody::GenUrlAuth { .. } => write_gen_url_auth_body(out, b),
        CommandBody::ResetKey { .. } => write_reset_key_body(out, b),
        CommandBody::UrlFetch { .. } => write_url_fetch_body(out, b),
        CommandBody::List { .. } => write_list_body(out, b),
        CommandBody::Search { .. } => write_search_body(out, b),
        CommandBody::Fetch { .. } => write_fetch_body(out, b),
        CommandBody::Status { .. } => write_status_body(out, b),
        CommandBody::Store { .. } => write_store_body(out, b),
        CommandBody::Copy { .. } => write_copy_body(out, b),
        CommandBody::Move { .. } => write_move_body(out, b),
        CommandBody::ExpungeUid { .. } => write_expunge_uid_body(out, b),
    }
}

/// How a command is written: its tag, a space, its body and CRLF.
pub open spec fn spec_write_command(c: CommandV) -> Seq<u8> {
    c.tag + seq![SP] + spec_write_command_body(c.body) + seq![CR, LF]
}

impl Command {
    /// The command's bytes.
    pub fn encode(&self) -> (r: Vec<u8>)
        ensures
            r@ == spec_write_command(self.deep_view()),
    {
        let mut out: Vec<u8> = Vec::new();
        put(&mut out, self.tag.as_bytes());
        out.push(SP);
        write_command_body(&mut out, &self.body);
        out.push(CR);
        out.push(LF);
        assert(out@ =~= spec_write_command(self.deep_view()));
        out
    }
}

/// Why input is not read as a command or a response.
#[derive(Clone, Copy, Debug, PartialEq, Eq, Hash)]
pub enum DecodeError {
    /// The input does not begin with one.
    Failed,
}

/// Reads commands.
#[derive(Clone, Copy, Debug, PartialEq, Eq, Hash)]
pub struct CommandCodec;

impl Default for CommandCodec {
    fn default() -> (r: Self)
        ensures
            r == CommandCodec,
    {
        CommandCodec
    }
}

impl CommandCodec {
    /// Reads the command the input begins with, and gives what follows
    /// it; fails where the input does not begin with a whole command.
    pub fn decode<'a>(&self, input: &'a [u8]) -> (r: Result<(&'a [u8], Command), DecodeError>)
        ensures
            match spec_command(input@, 0) {
                Some((c, j)) => r matches Ok((rest, cmd)) && cmd.deep_view() == c && rest@ == input@.subrange(j, input@.len() as int),
                None => r == Err::<(&'a [u8], Command), DecodeError>(DecodeError::Failed),
            },
    {
        match read_command(input, 0) {
            Some((c, j)) => Ok((&input[j..input.len()], c)),
            None => Err(DecodeError::Failed),
        }
    }
}

} // verus!

verus! {

// ---------------------------------------------------------------------
// What is written reads back.

/// Whether a tag's model can be written and read back: not empty, and
/// every byte a tag may hold.
pub open spec fn writable_tag(t: Seq<u8>) -> bool {
    t.len() > 0 && crate::chars::all_in(t, crate::chars::ByteClass::Tag)
}

/// The bodies whose reading back is proved: every body this crate reads,
/// each with values that can be written and read back: the five access
/// control commands,
/// `NOTIFY`, `UNAUTHENTICATE`, `GENURLAUTH`, `RESETKEY`, `URLFETCH`, `LIST`,
/// `STATUS`, `SEARCH`, `FETCH`, `STORE`, `COPY`, `MOVE` (these five with
/// or without `UID`) and `UID EXPUNGE`.
pub open spec fn round_trip_body(b: CommandBodyV) -> bool {
    match b {
        CommandBodyV::SetAcl { .. } | CommandBodyV::DeleteAcl { .. } | CommandBodyV::GetAcl { .. }
        | CommandBodyV::ListRights { .. } | CommandBodyV::MyRights { .. } => crate::acl::writable_acl_body(b),
        CommandBodyV::Unauthenticate => true,
        CommandBodyV::Notify { set } => crate::notify::writable_notify(set),
        CommandBodyV::GenUrlAuth { urls } => urls.len() > 0 && crate::urlauth::writable_url_rumps(urls),
        CommandBodyV::ResetKey { mailbox, mechanisms } => crate::urlauth::writable_resetkey(mailbox, mechanisms),
        CommandBodyV::UrlFetch { urls } => urls.len() > 0 && crate::urlauth::writable_url_fetch_args(urls),
        CommandBodyV::Store { sequence_set, flags, .. } => (sequence_set matches Some(es)
            ==> crate::sequence::wf_sequence_set(es)) && crate::fetch::writable_flags(flags),
        CommandBodyV::Status { mailbox, .. } => crate::mailbox::writable_mailbox(mailbox),
        CommandBodyV::List { reference, patterns, selection_options, return_options } =>
            crate::mailbox::writable_mailbox(reference) && crate::mailbox::writable_list_patterns(patterns)
                && (selection_options matches Some(os) ==> crate::mailbox::spec_valid_combination(os))
                && (return_options matches Some(ro) ==> forall|k: int| 0 <= k < ro.len()
                    ==> (#[trigger] ro[k] matches ListReturnOptionV::Status(items) ==> items.len() > 0)),
        CommandBodyV::Copy { sequence_set, mailbox, .. } | CommandBodyV::Move { sequence_set, mailbox, .. } =>
            (sequence_set matches Some(es) ==> crate::sequence::wf_sequence_set(es))
                && crate::mailbox::writable_mailbox(mailbox),
        CommandBodyV::ExpungeUid { sequence_set } => sequence_set matches Some(es)
            ==> crate::sequence::wf_sequence_set(es),
        CommandBodyV::Fetch { sequence_set, items, .. } => (sequence_set matches Some(es)
            ==> crate::sequence::wf_sequence_set(es)) && crate::fetch::writable_macro_or_items(items),
        CommandBodyV::Search { return_options, charset, criteria, .. } => (return_options matches Some(o)
            ==> crate::search_return::writable_search_return_opts(o)) && (charset matches Some(c)
            ==> crate::search::writable_charset(c)) && writable_criteria(criteria),
    }
}

/// Each of the commands read by an opaque rule begins with its word.
pub proof fn lemma_words_begin(s: Seq<u8>, i: int)
    ensures
        !crate::chars::spec_keyword(s, i, LIST@) ==> spec_list_cmd(s, i) is None,
        !crate::chars::spec_keyword(s, i, SEARCH@) ==> spec_search_cmd(s, i, false) is None && spec_search_cmd(s, i, true) is None,
        !crate::chars::spec_keyword(s, i, FETCH_SP@) ==> spec_fetch_cmd(s, i, false) is None && spec_fetch_cmd(s, i, true) is None,
        !crate::chars::spec_keyword(s, i, STATUS_SP@) ==> spec_status_cmd(s, i) is None,
        !crate::chars::spec_keyword(s, i, STORE_SP@) ==> spec_store_cmd(s, i, false) is None && spec_store_cmd(s, i, true) is None,
        !crate::chars::spec_keyword(s, i, crate::search::UID_SP@) ==> spec_uid_cmd(s, i) is None,
        !crate::chars::spec_keyword(s, i, crate::notify::NOTIFY_SP@) ==> crate::notify::spec_notify(s, i) is None,
        !crate::chars::spec_keyword(s, i, crate::urlauth::GENURLAUTH@) ==> crate::urlauth::spec_genurlauth(s, i) is None,
        !crate::chars::spec_keyword(s, i, crate::urlauth::RESETKEY@) ==> crate::urlauth::spec_resetkey(s, i) is None,
        !crate::chars::spec_keyword(s, i, crate::urlauth::URLFETCH@) ==> crate::urlauth::spec_urlfetch(s, i) is None,
{
    reveal(spec_list_cmd);
    reveal(spec_search_cmd);
    reveal(spec_fetch_cmd);
    reveal(spec_status_cmd);
    reveal(spec_store_cmd);
    reveal(spec_uid_cmd);
    reveal(crate::notify::spec_notify);
    reveal(crate::urlauth::spec_genurlauth);
    reveal(crate::urlauth::spec_resetkey);
    reveal(crate::urlauth::spec_urlfetch);
}

/// Where none of the five access control commands begins.
proof fn lemma_no_acl_command(s: Seq<u8>, i: int)
    requires
        0 <= i,
        i + 1 < s.len(),
        !crate::chars::spec_keyword(s, i, SETACL_SP@),
        !crate::chars::spec_keyword(s, i, DELETEACL_SP@),
        !crate::chars::spec_keyword(s, i, GETACL_SP@),
        !crate::chars::spec_keyword(s, i, LISTRIGHTS_SP@),
        !crate::chars::spec_keyword(s, i, MYRIGHTS_SP@),
    ensures
        crate::acl::spec_acl_command(s, i) is None,
{
}

/// `UNAUTHENTICATE`, written at `i`, reads back.
proof fn lemma_unauthenticate_round_trip(s: Seq<u8>, i: int)
    requires
        0 <= i,
        i + 14 < s.len(),
        s.subrange(i, i + 14) == UNAUTHENTICATE@,
    ensures
        spec_command_body(s, i) == Some((CommandBodyV::Unauthenticate, i + 14)),
{
    lemma_words_begin(s, i);
    assert(s[i] == s.subrange(i, i + 14)[0]);
    crate::chars::lemma_not_keyword(s, i, SETACL_SP@, 0);
    crate::chars::lemma_not_keyword(s, i, DELETEACL_SP@, 0);
    crate::chars::lemma_not_keyword(s, i, GETACL_SP@, 0);
    crate::chars::lemma_not_keyword(s, i, LISTRIGHTS_SP@, 0);
    crate::chars::lemma_not_keyword(s, i, MYRIGHTS_SP@, 0);
    lemma_no_acl_command(s, i);
    crate::chars::lemma_not_keyword(s, i, crate::notify::NOTIFY_SP@, 0);
    crate::chars::lemma_keyword_at(s, i, UNAUTHENTICATE@);
}

/// `GENURLAUTH`, written at `i` and followed by CR, reads back.
proof fn lemma_genurlauth_cmd_round_trip(b: CommandBodyV, s: Seq<u8>, i: int)
    requires
        b is GenUrlAuth,
        round_trip_body(b),
        0 <= i,
        i + spec_write_command_body(b).len() < s.len(),
        s.subrange(i, i + spec_write_command_body(b).len()) == spec_write_command_body(b),
        s[i + spec_write_command_body(b).len()] == CR,
    ensures
        spec_command_body(s, i) == Some((b, i + spec_write_command_body(b).len())),
{
    if let CommandBodyV::GenUrlAuth { urls } = b {
        let w = spec_write_command_body(b);
        lemma_words_begin(s, i);
        assert(s[i] == w[0] && s[i + 2] == w[2]);
        assert(w[0] == crate::urlauth::GENURLAUTH@[0] && w[2] == crate::urlauth::GENURLAUTH@[2]);
        crate::chars::lemma_not_keyword(s, i, SETACL_SP@, 0);
        crate::chars::lemma_not_keyword(s, i, DELETEACL_SP@, 0);
        crate::chars::lemma_not_keyword(s, i, GETACL_SP@, 2);
        crate::chars::lemma_not_keyword(s, i, LISTRIGHTS_SP@, 0);
        crate::chars::lemma_not_keyword(s, i, MYRIGHTS_SP@, 0);
        lemma_no_acl_command(s, i);
        crate::chars::lemma_not_keyword(s, i, crate::notify::NOTIFY_SP@, 0);
        crate::chars::lemma_not_keyword(s, i, UNAUTHENTICATE@, 0);
        crate::urlauth::lemma_genurlauth_round_trip(urls, s, i);
    }
}

/// `RESETKEY`, written at `i` and followed by CR, reads back.
proof fn lemma_resetkey_cmd_round_trip(b: CommandBodyV, s: Seq<u8>, i: int)
    requires
        b is ResetKey,
        round_trip_body(b),
        0 <= i,
        i + spec_write_command_body(b).len() < s.len(),
        s.subrange(i, i + spec_write_command_body(b).len()) == spec_write_command_body(b),
        s[i + spec_write_command_body(b).len()] == CR,
    ensures
        spec_command_body(s, i) == Some((b, i + spec_write_command_body(b).len())),
{
    if let CommandBodyV::ResetKey { mailbox, mechanisms } = b {
        let w = spec_write_command_body(b);
        lemma_words_begin(s, i);
        assert(s[i] == w[0]);
        assert(w[0] == crate::urlauth::RESETKEY@[0]);
        crate::chars::lemma_not_keyword(s, i, SETACL_SP@, 0);
        crate::chars::lemma_not_keyword(s, i, DELETEACL_SP@, 0);
        crate::chars::lemma_not_keyword(s, i, GETACL_SP@, 0);
        crate::chars::lemma_not_keyword(s, i, LISTRIGHTS_SP@, 0);
        crate::chars::lemma_not_keyword(s, i, MYRIGHTS_SP@, 0);
        lemma_no_acl_command(s, i);
        crate::chars::lemma_not_keyword(s, i, crate::notify::NOTIFY_SP@, 0);
        crate::chars::lemma_not_keyword(s, i, UNAUTHENTICATE@, 0);
        crate::chars::lemma_not_keyword(s, i, crate::urlauth::GENURLAUTH@, 0);
        crate::urlauth::lemma_resetkey_round_trip(mailbox, mechanisms, s, i);
    }
}

/// What `STORE` does to the flags, written at `i` and followed by CR,
/// reads back.
#[verifier::rlimit(100)]
proof fn lemma_store_att_flags_round_trip(kind: StoreType, response: StoreResponse, flags: Seq<FlagV>, s: Seq<u8>, i: int)
    requires
        crate::fetch::writable_flags(flags),
        0 <= i,
        ({
            let w = spec_write_store_kind(kind, response) + seq![SP] + spec_write_flag_list(flags);
            &&& i + w.len() < s.len()
            &&& s.subrange(i, i + w.len()) == w
        }),
    ensures
        spec_store_att_flags(s, i) == Some(((kind, response, flags), i + spec_write_store_kind(kind, response).len() + 1
            + spec_write_flag_list(flags).len())),
{
    let wk = spec_write_store_kind(kind, response);
    let wf = spec_write_flag_list(flags);
    let w = wk + seq![SP] + wf;
    assert forall|k: int| 0 <= k < w.len() implies s[i + k] == #[trigger] w[k] by {
        assert(s[i + k] == s.subrange(i, i + w.len())[k]);
    }
    let a = match kind {
        StoreType::Replace => i,
        _ => i + 1,
    };
    assert(w[a - i] == FLAGS@[0]);
    assert(w[0] == wk[0]);
    crate::chars::lemma_part(s, i, w, a - i, 5);
    assert(w.subrange(a - i, a - i + 5) =~= FLAGS@);
    crate::chars::lemma_keyword_at(s, a, FLAGS@);
    match response {
        StoreResponse::Answer => {
            assert(w[a - i + 5] == SP);
            crate::chars::lemma_not_keyword(s, a + 5, DOT_SILENT@, 0);
        },
        StoreResponse::Silent => {
            crate::chars::lemma_part(s, i, w, a - i + 5, 7);
            assert(w.subrange(a - i + 5, a - i + 12) =~= DOT_SILENT@);
            crate::chars::lemma_keyword_at(s, a + 5, DOT_SILENT@);
        },
    }
    let c = i + wk.len();
    assert(w[wk.len() as int] == SP);
    crate::chars::lemma_part(s, i, w, wk.len() as int + 1, wf.len() as int);
    assert(w.subrange(wk.len() as int + 1, w.len() as int) =~= wf);
    crate::fetch::lemma_flag_list_round_trip(flags, s, c + 1);
}

/// A `STORE` after its `UID`, if any, written at `i` and followed by CR,
/// reads back.
#[verifier::rlimit(100)]
proof fn lemma_store_cmd_round_trip(
    q: Option<Seq<SequenceV>>,
    kind: StoreType,
    response: StoreResponse,
    flags: Seq<FlagV>,
    uid: bool,
    s: Seq<u8>,
    i: int,
)
    requires
        q matches Some(es) ==> crate::sequence::wf_sequence_set(es),
        crate::fetch::writable_flags(flags),
        0 <= i,
        ({
            let w = STORE_SP@ + spec_write_sequence_set_or_saved(q) + seq![SP] + spec_write_store_kind(kind, response)
                + seq![SP] + spec_write_flag_list(flags);
            &&& i + w.len() < s.len()
            &&& s.subrange(i, i + w.len()) == w
        }),
    ensures
        spec_store_cmd(s, i, uid) == Some((
            CommandBodyV::Store { sequence_set: q, kind, response, flags, uid },
            i + (STORE_SP@ + spec_write_sequence_set_or_saved(q) + seq![SP] + spec_write_store_kind(kind, response)
                + seq![SP] + spec_write_flag_list(flags)).len(),
        )),
{
    reveal(spec_store_cmd);
    let wq = spec_write_sequence_set_or_saved(q);
    let rest = spec_write_store_kind(kind, response) + seq![SP] + spec_write_flag_list(flags);
    let w = STORE_SP@ + wq + seq![SP] + rest;
    assert(w =~= STORE_SP@ + wq + seq![SP] + spec_write_store_kind(kind, response) + seq![SP] + spec_write_flag_list(flags));
    crate::chars::lemma_part(s, i, w, 0, 6);
    assert(w.subrange(0, 6) =~= STORE_SP@);
    crate::chars::lemma_keyword_at(s, i, STORE_SP@);
    crate::chars::lemma_part(s, i, w, 6, wq.len() as int);
    assert(w.subrange(6, 6 + wq.len() as int) =~= wq);
    assert(s[i + 6 + wq.len()] == w[6 + wq.len() as int]);
    crate::sequence::lemma_sequence_set_or_saved_round_trip(q, s, i + 6);
    crate::chars::lemma_part(s, i, w, 7 + wq.len() as int, rest.len() as int);
    assert(w.subrange(7 + wq.len() as int, w.len() as int) =~= rest);
    lemma_store_att_flags_round_trip(kind, response, flags, s, i + 7 + wq.len());
}

/// Whether the keys of a `SEARCH` can be written and read back: at least
/// one, each one that can, nested within the nine levels read.
pub open spec fn writable_criteria(ks: Seq<SearchKeyV>) -> bool {
    ks.len() > 0 && forall|k: int| 0 <= k < ks.len() ==> crate::search::writable_search_key(#[trigger] ks[k])
        && crate::search::within_depth(ks[k], 9)
}

/// What a `SEARCH` writes after its name and before its keys.
pub open spec fn search_head(ro: Option<Seq<SearchReturnOptionV>>, cs: Option<StrV>) -> Seq<u8> {
    (match ro {
        Some(o) => spec_write_search_return_opts(o),
        None => seq![],
    }) + match cs {
        Some(c) => SP_CHARSET_SP@ + spec_write_str(c),
        None => seq![],
    }
}

/// The keys of a `SEARCH`, joined by spaces at `i` and followed by CR,
/// read back; the first begins with neither a small letter nor, but for
/// `RECENT` and `CC`, `R` or `C`.
proof fn lemma_criteria_round_trip(ks: Seq<SearchKeyV>, s: Seq<u8>, i: int)
    requires
        writable_criteria(ks),
        0 <= i,
        i + join(written(SearchKeyWriter, ks), seq![SP]).len() < s.len(),
        s.subrange(i, i + join(written(SearchKeyWriter, ks), seq![SP]).len()) == join(written(SearchKeyWriter, ks), seq![SP]),
        s[i + join(written(SearchKeyWriter, ks), seq![SP]).len()] == CR,
    ensures
        spec_separated(SearchKeyRule { depth: 9 }, s, i, SP) == Some((ks, i + join(written(SearchKeyWriter, ks), seq![SP]).len())),
        !(97 <= s[i] <= 122),
        s[i] == 82 ==> i + 2 < s.len() && s[i + 2] == 67,
        s[i] == 67 ==> i + 1 < s.len() && s[i + 1] == 67,
{
    let ws = written(SearchKeyWriter, ks);
    let jw = join(ws, seq![SP]);
    let after = |b: u8| b == SP || b == CR;
    assert forall|k: int, q: int| 0 <= k < ks.len() implies #[trigger] crate::rule::reads_at(SearchKeyRule { depth: 9 }, s, q, ks[k], ws[k], after) by {
        assert(ws[k] == crate::search::spec_write_search_key(ks[k]));
        if 0 <= q && q + ws[k].len() < s.len() && s.subrange(q, q + ws[k].len()) == ws[k] && after(s[q + ws[k].len()]) {
            crate::search::lemma_search_key_round_trip(ks[k], s, q, 9);
        }
    }
    crate::rule::lemma_separated_round_trip(SearchKeyRule { depth: 9 }, ks, ws, s, i, SP, after);
    crate::rule::lemma_join_front(ws, seq![SP]);
    let w0 = ws[0];
    assert(w0 == crate::search::spec_write_search_key(ks[0]));
    crate::search::lemma_key_first(ks[0]);
    crate::chars::lemma_part(s, i, jw, 0, w0.len() as int);
    assert(jw.subrange(0, w0.len() as int) =~= w0);
    assert(s[i] == s.subrange(i, i + w0.len())[0]);
    if w0[0] == 82 {
        assert(s[i + 2] == s.subrange(i, i + w0.len())[2]);
    }
    if w0[0] == 67 {
        assert(s[i + 1] == s.subrange(i, i + w0.len())[1]);
    }
}

/// What a `SEARCH` writes after its name and before its keys, written at
/// `a` and followed by a space and a key, reads back.
#[verifier::rlimit(100)]
#[verifier::spinoff_prover]
proof fn lemma_search_head_round_trip(ro: Option<Seq<SearchReturnOptionV>>, cs: Option<StrV>, s: Seq<u8>, a: int)
    requires
        ro matches Some(o) ==> crate::search_return::writable_search_return_opts(o),
        cs matches Some(c) ==> crate::search::writable_charset(c),
        0 <= a,
        a + search_head(ro, cs).len() + 1 < s.len(),
        s.subrange(a, a + search_head(ro, cs).len()) == search_head(ro, cs),
        s[a + search_head(ro, cs).len()] == SP,
        !(97 <= s[a + search_head(ro, cs).len() + 1] <= 122),
        s[a + search_head(ro, cs).len() + 1] == 82 ==> a + search_head(ro, cs).len() + 3 < s.len()
            && s[a + search_head(ro, cs).len() + 3] == 67,
        s[a + search_head(ro, cs).len() + 1] == 67 ==> a + search_head(ro, cs).len() + 2 < s.len()
            && s[a + search_head(ro, cs).len() + 2] == 67,
    ensures
        (match spec_search_return_opts(s, a) {
            Some((o, j)) => (Some(o), j),
            None => (None, a),
        }) == (ro, a + match ro {
            Some(o) => spec_write_search_return_opts(o).len() as int,
            None => 0int,
        }),
        ({
            let j1 = a + match ro {
                Some(o) => spec_write_search_return_opts(o).len() as int,
                None => 0int,
            };
            (if spec_keyword(s, j1, SP_CHARSET_SP@) {
                match spec_charset(s, j1 + 9) {
                    Some((c, j)) => (Some(c), j),
                    None => (None, j1),
                }
            } else {
                (None, j1)
            }) == (cs, a + search_head(ro, cs).len())
        }),
{
    let wo = match ro {
        Some(o) => spec_write_search_return_opts(o),
        None => seq![],
    };
    let wc = match cs {
        Some(c) => SP_CHARSET_SP@ + spec_write_str(c),
        None => seq![],
    };
    let h = search_head(ro, cs);
    assert(h =~= wo + wc);
    crate::search::lemma_after_keyword_at(s, a, wo, wc);
    let j1 = a + wo.len();
    let p = a + h.len() + 1;
    match cs {
        Some(c) => {
            let wcs = spec_write_str(c);
            crate::search::lemma_after_keyword_at(s, j1, SP_CHARSET_SP@, wcs);
            assert(s[j1 + 9 + wcs.len()] == SP);
            crate::search::lemma_charset_round_trip(c, s, j1 + 9);
            assert(s[j1] == s.subrange(j1, j1 + 9)[0] && s[j1 + 1] == s.subrange(j1, j1 + 9)[1]);
        },
        None => {
            if s[p] == 67 {
                crate::chars::lemma_not_keyword(s, j1, SP_CHARSET_SP@, 2);
            } else {
                crate::chars::lemma_not_keyword(s, j1, SP_CHARSET_SP@, 1);
            }
        },
    }
    match ro {
        Some(o) => {
            crate::search_return::lemma_search_return_opts_round_trip(o, s, a);
        },
        None => {
            if s[a + 1] == 82 {
                crate::chars::lemma_not_keyword(s, a, crate::search_return::SP_RETURN_SP@, 3);
            } else {
                crate::chars::lemma_not_keyword(s, a, crate::search_return::SP_RETURN_SP@, 1);
            }
        },
    }
}

/// `SEARCH` reads what stands after its name.
proof fn lemma_search_cmd_route(
    ro: Option<Seq<SearchReturnOptionV>>,
    cs: Option<StrV>,
    ks: Seq<SearchKeyV>,
    uid: bool,
    s: Seq<u8>,
    i: int,
    j1: int,
    j2: int,
    k: int,
)
    requires
        spec_keyword(s, i, SEARCH@),
        (match spec_search_return_opts(s, i + 6) {
            Some((o, j)) => (Some(o), j),
            None => (None, i + 6),
        }) == (ro, j1),
        (if spec_keyword(s, j1, SP_CHARSET_SP@) {
            match spec_charset(s, j1 + 9) {
                Some((c, j)) => (Some(c), j),
                None => (None, j1),
            }
        } else {
            (None, j1)
        }) == (cs, j2),
        spec_byte(s, j2, SP),
        spec_separated(SearchKeyRule { depth: 9 }, s, j2 + 1, SP) == Some((ks, k)),
    ensures
        spec_search_cmd(s, i, uid) == Some((CommandBodyV::Search { return_options: ro, charset: cs, criteria: ks, uid }, k)),
{
    reveal(spec_search_cmd);
}

/// A `SEARCH` after its `UID`, if any, written at `i` and followed by CR,
/// reads back.
#[verifier::rlimit(100)]
#[verifier::spinoff_prover]
proof fn lemma_search_cmd_round_trip(
    ro: Option<Seq<SearchReturnOptionV>>,
    cs: Option<StrV>,
    ks: Seq<SearchKeyV>,
    uid: bool,
    s: Seq<u8>,
    i: int,
)
    requires
        ro matches Some(o) ==> crate::search_return::writable_search_return_opts(o),
        cs matches Some(c) ==> crate::search::writable_charset(c),
        writable_criteria(ks),
        0 <= i,
        ({
            let w = SEARCH@ + search_head(ro, cs) + seq![SP] + join(written(SearchKeyWriter, ks), seq![SP]);
            &&& i + w.len() < s.len()
            &&& s.subrange(i, i + w.len()) == w
            &&& s[i + w.len()] == CR
        }),
    ensures
        spec_search_cmd(s, i, uid) == Some((
            CommandBodyV::Search { return_options: ro, charset: cs, criteria: ks, uid },
            i + (SEARCH@ + search_head(ro, cs) + seq![SP] + join(written(SearchKeyWriter, ks), seq![SP])).len(),
        )),
{
    let h = search_head(ro, cs);
    let jw = join(written(SearchKeyWriter, ks), seq![SP]);
    let w = SEARCH@ + h + seq![SP] + jw;
    assert(w =~= SEARCH@ + (h + (seq![SP] + jw)));
    crate::search::lemma_after_keyword_at(s, i, SEARCH@, h + (seq![SP] + jw));
    crate::search::lemma_after_keyword_at(s, i + 6, h, seq![SP] + jw);
    let j2 = i + 6 + h.len();
    crate::search::lemma_after_keyword_at(s, j2, seq![SP], jw);
    let p = j2 + 1;
    assert(s[j2] == s.subrange(j2, j2 + 1)[0]);
    assert(s[p + jw.len()] == CR);
    lemma_criteria_round_trip(ks, s, p);
    lemma_search_head_round_trip(ro, cs, s, i + 6);
    let j1 = i + 6 + match ro {
        Some(o) => spec_write_search_return_opts(o).len() as int,
        None => 0int,
    };
    lemma_search_cmd_route(ro, cs, ks, uid, s, i, j1, j2, p + jw.len());
}

/// Where `SEARCH` is written at `i`, no command read before it reads
/// there.
proof fn lemma_before_search_fail(s: Seq<u8>, i: int)
    requires
        0 <= i,
        i + 5 < s.len(),
        s[i] == 83u8,
        s[i + 1] == 69u8,
        s[i + 2] == 65u8,
    ensures
        crate::acl::spec_acl_command(s, i) is None,
        crate::notify::spec_notify(s, i) is None,
        !crate::chars::spec_keyword(s, i, UNAUTHENTICATE@),
        crate::urlauth::spec_genurlauth(s, i) is None,
        crate::urlauth::spec_resetkey(s, i) is None,
        crate::urlauth::spec_urlfetch(s, i) is None,
        spec_list_cmd(s, i) is None,
        spec_copy_or_move(s, i, true) is None,
        spec_fetch_cmd(s, i, true) is None,
{
    lemma_words_begin(s, i);
    crate::chars::lemma_not_keyword(s, i, SETACL_SP@, 2);
    crate::chars::lemma_not_keyword(s, i, DELETEACL_SP@, 0);
    crate::chars::lemma_not_keyword(s, i, GETACL_SP@, 0);
    crate::chars::lemma_not_keyword(s, i, LISTRIGHTS_SP@, 0);
    crate::chars::lemma_not_keyword(s, i, MYRIGHTS_SP@, 0);
    lemma_no_acl_command(s, i);
    crate::chars::lemma_not_keyword(s, i, crate::notify::NOTIFY_SP@, 0);
    crate::chars::lemma_not_keyword(s, i, UNAUTHENTICATE@, 0);
    crate::chars::lemma_not_keyword(s, i, crate::urlauth::GENURLAUTH@, 0);
    crate::chars::lemma_not_keyword(s, i, crate::urlauth::RESETKEY@, 0);
    crate::chars::lemma_not_keyword(s, i, crate::urlauth::URLFETCH@, 0);
    crate::chars::lemma_not_keyword(s, i, LIST@, 0);
    crate::chars::lemma_not_keyword(s, i, COPY_SP@, 0);
    crate::chars::lemma_not_keyword(s, i, MOVE_SP@, 0);
    crate::chars::lemma_not_keyword(s, i, FETCH_SP@, 0);
}

#[verifier::rlimit(100)]
#[verifier::spinoff_prover]
proof fn lemma_search_round_trip(b: CommandBodyV, s: Seq<u8>, i: int)
    requires
        b is Search,
        round_trip_body(b),
        0 <= i,
        i + spec_write_command_body(b).len() < s.len(),
        s.subrange(i, i + spec_write_command_body(b).len()) == spec_write_command_body(b),
        s[i + spec_write_command_body(b).len()] == CR,
    ensures
        spec_command_body(s, i) == Some((b, i + spec_write_command_body(b).len())),
{
    if let CommandBodyV::Search { return_options, charset, criteria, uid } = b {
        let w = spec_write_command_body(b);
        let p = spec_uid_prefix(uid);
        let rest = SEARCH@ + search_head(return_options, charset) + seq![SP] + join(written(SearchKeyWriter, criteria), seq![SP]);
        assert(w =~= p + rest);
        crate::chars::lemma_part(s, i, w, p.len() as int, rest.len() as int);
        assert(w.subrange(p.len() as int, w.len() as int) =~= rest);
        let j = i + p.len();
        assert(s[j + rest.len()] == CR);
        lemma_search_cmd_round_trip(return_options, charset, criteria, uid, s, j);
        assert(s[j] == w[p.len() as int] && s[j + 1] == w[p.len() as int + 1] && s[j + 2] == w[p.len() as int + 2]);
        lemma_before_search_fail(s, j);
        if uid {
            assert(s[i] == w[0] && s[i + 1] == w[1]);
            lemma_uid_prefix_fail(s, i, true);
            crate::chars::lemma_part(s, i, w, 0, 4);
            assert(w.subrange(0, 4) =~= crate::search::UID_SP@);
            crate::chars::lemma_keyword_at(s, i, crate::search::UID_SP@);
            reveal(spec_uid_cmd);
        }
    }
}

/// A `FETCH` after its `UID`, if any, written at `i` and followed by CR,
/// reads back.
#[verifier::rlimit(100)]
#[verifier::spinoff_prover]
proof fn lemma_fetch_cmd_round_trip(q: Option<Seq<SequenceV>>, m: crate::fetch::MacroOrItemsV, uid: bool, s: Seq<u8>, i: int)
    requires
        q matches Some(es) ==> crate::sequence::wf_sequence_set(es),
        crate::fetch::writable_macro_or_items(m),
        0 <= i,
        ({
            let w = FETCH_SP@ + spec_write_sequence_set_or_saved(q) + seq![SP] + crate::fetch::spec_write_macro_or_items(m);
            &&& i + w.len() < s.len()
            &&& s.subrange(i, i + w.len()) == w
            &&& s[i + w.len()] == CR
        }),
    ensures
        spec_fetch_cmd(s, i, uid) == Some((
            CommandBodyV::Fetch { sequence_set: q, items: m, uid },
            i + (FETCH_SP@ + spec_write_sequence_set_or_saved(q) + seq![SP] + crate::fetch::spec_write_macro_or_items(m)).len(),
        )),
{
    reveal(spec_fetch_cmd);
    let wq = spec_write_sequence_set_or_saved(q);
    let wm = crate::fetch::spec_write_macro_or_items(m);
    let w = FETCH_SP@ + wq + seq![SP] + wm;
    crate::chars::lemma_part(s, i, w, 0, 6);
    assert(w.subrange(0, 6) =~= FETCH_SP@);
    crate::chars::lemma_keyword_at(s, i, FETCH_SP@);
    crate::chars::lemma_part(s, i, w, 6, wq.len() as int);
    assert(w.subrange(6, 6 + wq.len() as int) =~= wq);
    assert(s[i + 6 + wq.len()] == w[6 + wq.len() as int]);
    crate::sequence::lemma_sequence_set_or_saved_round_trip(q, s, i + 6);
    crate::chars::lemma_part(s, i, w, 7 + wq.len() as int, wm.len() as int);
    assert(w.subrange(7 + wq.len() as int, w.len() as int) =~= wm);
    crate::fetch::lemma_macro_or_items_round_trip(m, s, i + 7 + wq.len());
}

/// Where `FETCH` is written at `i`, no command read before it reads
/// there.
proof fn lemma_before_fetch_fail(s: Seq<u8>, i: int)
    requires
        0 <= i,
        i + 5 < s.len(),
        s[i] == 70u8,
        s[i + 1] == 69u8,
    ensures
        crate::acl::spec_acl_command(s, i) is None,
        crate::notify::spec_notify(s, i) is None,
        !crate::chars::spec_keyword(s, i, UNAUTHENTICATE@),
        crate::urlauth::spec_genurlauth(s, i) is None,
        crate::urlauth::spec_resetkey(s, i) is None,
        crate::urlauth::spec_urlfetch(s, i) is None,
        spec_list_cmd(s, i) is None,
        spec_search_cmd(s, i, false) is None,
        spec_copy_or_move(s, i, true) is None,
{
    lemma_words_begin(s, i);
    crate::chars::lemma_not_keyword(s, i, SETACL_SP@, 0);
    crate::chars::lemma_not_keyword(s, i, DELETEACL_SP@, 0);
    crate::chars::lemma_not_keyword(s, i, GETACL_SP@, 0);
    crate::chars::lemma_not_keyword(s, i, LISTRIGHTS_SP@, 0);
    crate::chars::lemma_not_keyword(s, i, MYRIGHTS_SP@, 0);
    lemma_no_acl_command(s, i);
    crate::chars::lemma_not_keyword(s, i, crate::notify::NOTIFY_SP@, 0);
    crate::chars::lemma_not_keyword(s, i, UNAUTHENTICATE@, 0);
    crate::chars::lemma_not_keyword(s, i, crate::urlauth::GENURLAUTH@, 0);
    crate::chars::lemma_not_keyword(s, i, crate::urlauth::RESETKEY@, 0);
    crate::chars::lemma_not_keyword(s, i, crate::urlauth::URLFETCH@, 0);
    crate::chars::lemma_not_keyword(s, i, LIST@, 0);
    crate::chars::lemma_not_keyword(s, i, SEARCH@, 0);
    crate::chars::lemma_not_keyword(s, i, COPY_SP@, 0);
    crate::chars::lemma_not_keyword(s, i, MOVE_SP@, 0);
}

#[verifier::rlimit(100)]
#[verifier::spinoff_prover]
proof fn lemma_fetch_round_trip(b: CommandBodyV, s: Seq<u8>, i: int)
    requires
        b is Fetch,
        round_trip_body(b),
        0 <= i,
        i + spec_write_command_body(b).len() < s.len(),
        s.subrange(i, i + spec_write_command_body(b).len()) == spec_write_command_body(b),
        s[i + spec_write_command_body(b).len()] == CR,
    ensures
        spec_command_body(s, i) == Some((b, i + spec_write_command_body(b).len())),
{
    if let CommandBodyV::Fetch { sequence_set, items, uid } = b {
        let w = spec_write_command_body(b);
        let p = spec_uid_prefix(uid);
        let rest = FETCH_SP@ + spec_write_sequence_set_or_saved(sequence_set) + seq![SP]
            + crate::fetch::spec_write_macro_or_items(items);
        assert(w =~= p + rest);
        crate::chars::lemma_part(s, i, w, p.len() as int, rest.len() as int);
        assert(w.subrange(p.len() as int, w.len() as int) =~= rest);
        let j = i + p.len();
        assert(s[j + rest.len()] == CR);
        lemma_fetch_cmd_round_trip(sequence_set, items, uid, s, j);
        assert(s[j] == w[p.len() as int] && s[j + 1] == w[p.len() as int + 1]);
        lemma_before_fetch_fail(s, j);
        if uid {
            assert(s[i] == w[0] && s[i + 1] == w[1]);
            lemma_uid_prefix_fail(s, i, true);
            crate::chars::lemma_part(s, i, w, 0, 4);
            assert(w.subrange(0, 4) =~= crate::search::UID_SP@);
            crate::chars::lemma_keyword_at(s, i, crate::search::UID_SP@);
            reveal(spec_uid_cmd);
        }
    }
}

/// Where `STORE` is written at `i`, no command read before it reads
/// there.
proof fn lemma_before_store_fail(s: Seq<u8>, i: int)
    requires
        0 <= i,
        i + 5 < s.len(),
        s[i] == 83u8,
        s[i + 1] == 84u8,
        s[i + 2] == 79u8,
    ensures
        crate::acl::spec_acl_command(s, i) is None,
        crate::notify::spec_notify(s, i) is None,
        !crate::chars::spec_keyword(s, i, UNAUTHENTICATE@),
        crate::urlauth::spec_genurlauth(s, i) is None,
        crate::urlauth::spec_resetkey(s, i) is None,
        crate::urlauth::spec_urlfetch(s, i) is None,
        spec_list_cmd(s, i) is None,
        spec_search_cmd(s, i, false) is None,
        spec_search_cmd(s, i, true) is None,
        spec_fetch_cmd(s, i, false) is None,
        spec_fetch_cmd(s, i, true) is None,
        spec_status_cmd(s, i) is None,
        spec_copy_or_move(s, i, true) is None,
{
    lemma_words_begin(s, i);
    crate::chars::lemma_not_keyword(s, i, SETACL_SP@, 1);
    crate::chars::lemma_not_keyword(s, i, DELETEACL_SP@, 0);
    crate::chars::lemma_not_keyword(s, i, GETACL_SP@, 0);
    crate::chars::lemma_not_keyword(s, i, LISTRIGHTS_SP@, 0);
    crate::chars::lemma_not_keyword(s, i, MYRIGHTS_SP@, 0);
    lemma_no_acl_command(s, i);
    crate::chars::lemma_not_keyword(s, i, crate::notify::NOTIFY_SP@, 0);
    crate::chars::lemma_not_keyword(s, i, UNAUTHENTICATE@, 0);
    crate::chars::lemma_not_keyword(s, i, crate::urlauth::GENURLAUTH@, 0);
    crate::chars::lemma_not_keyword(s, i, crate::urlauth::RESETKEY@, 0);
    crate::chars::lemma_not_keyword(s, i, crate::urlauth::URLFETCH@, 0);
    crate::chars::lemma_not_keyword(s, i, LIST@, 0);
    crate::chars::lemma_not_keyword(s, i, SEARCH@, 1);
    crate::chars::lemma_not_keyword(s, i, FETCH_SP@, 0);
    crate::chars::lemma_not_keyword(s, i, STATUS_SP@, 2);
    crate::chars::lemma_not_keyword(s, i, COPY_SP@, 0);
    crate::chars::lemma_not_keyword(s, i, MOVE_SP@, 0);
}

#[verifier::rlimit(100)]
proof fn lemma_store_round_trip(b: CommandBodyV, s: Seq<u8>, i: int)
    requires
        b is Store,
        round_trip_body(b),
        0 <= i,
        i + spec_write_command_body(b).len() < s.len(),
        s.subrange(i, i + spec_write_command_body(b).len()) == spec_write_command_body(b),
        s[i + spec_write_command_body(b).len()] == CR,
    ensures
        spec_command_body(s, i) == Some((b, i + spec_write_command_body(b).len())),
{
    if let CommandBodyV::Store { sequence_set, kind, response, flags, uid } = b {
        let w = spec_write_command_body(b);
        let p = spec_uid_prefix(uid);
        let rest = STORE_SP@ + spec_write_sequence_set_or_saved(sequence_set) + seq![SP] + spec_write_store_kind(kind, response)
            + seq![SP] + spec_write_flag_list(flags);
        assert(w =~= p + rest);
        crate::chars::lemma_part(s, i, w, p.len() as int, rest.len() as int);
        assert(w.subrange(p.len() as int, w.len() as int) =~= rest);
        lemma_store_cmd_round_trip(sequence_set, kind, response, flags, uid, s, i + p.len());
        let j = i + p.len();
        assert(s[j] == w[p.len() as int] && s[j + 1] == w[p.len() as int + 1] && s[j + 2] == w[p.len() as int + 2]);
        lemma_before_store_fail(s, j);
        if uid {
            assert(s[i] == w[0] && s[i + 1] == w[1]);
            lemma_uid_prefix_fail(s, i, true);
            crate::chars::lemma_part(s, i, w, 0, 4);
            assert(w.subrange(0, 4) =~= crate::search::UID_SP@);
            crate::chars::lemma_keyword_at(s, i, crate::search::UID_SP@);
            reveal(spec_uid_cmd);
        }
    }
}

/// `URLFETCH`, written at `i` and followed by CR, reads back.
proof fn lemma_urlfetch_cmd_round_trip(b: CommandBodyV, s: Seq<u8>, i: int)
    requires
        b is UrlFetch,
        round_trip_body(b),
        0 <= i,
        i + spec_write_command_body(b).len() < s.len(),
        s.subrange(i, i + spec_write_command_body(b).len()) == spec_write_command_body(b),
        s[i + spec_write_command_body(b).len()] == CR,
    ensures
        spec_command_body(s, i) == Some((b, i + spec_write_command_body(b).len())),
{
    if let CommandBodyV::UrlFetch { urls } = b {
        let w = spec_write_command_body(b);
        lemma_words_begin(s, i);
        assert(s[i] == w[0] && s[i + 1] == w[1]);
        assert(w[0] == crate::urlauth::URLFETCH@[0] && w[1] == crate::urlauth::URLFETCH@[1]);
        crate::chars::lemma_not_keyword(s, i, SETACL_SP@, 0);
        crate::chars::lemma_not_keyword(s, i, DELETEACL_SP@, 0);
        crate::chars::lemma_not_keyword(s, i, GETACL_SP@, 0);
        crate::chars::lemma_not_keyword(s, i, LISTRIGHTS_SP@, 0);
        crate::chars::lemma_not_keyword(s, i, MYRIGHTS_SP@, 0);
        lemma_no_acl_command(s, i);
        crate::chars::lemma_not_keyword(s, i, crate::notify::NOTIFY_SP@, 0);
        crate::chars::lemma_not_keyword(s, i, UNAUTHENTICATE@, 1);
        crate::chars::lemma_not_keyword(s, i, crate::urlauth::GENURLAUTH@, 0);
        crate::chars::lemma_not_keyword(s, i, crate::urlauth::RESETKEY@, 0);
        crate::urlauth::lemma_urlfetch_round_trip(urls, s, i);
    }
}

/// `NOTIFY`, written at `i` and followed by CR, reads back.
proof fn lemma_notify_cmd_round_trip(b: CommandBodyV, s: Seq<u8>, i: int)
    requires
        b is Notify,
        round_trip_body(b),
        0 <= i,
        i + spec_write_command_body(b).len() < s.len(),
        s.subrange(i, i + spec_write_command_body(b).len()) == spec_write_command_body(b),
        s[i + spec_write_command_body(b).len()] == CR,
    ensures
        spec_command_body(s, i) == Some((b, i + spec_write_command_body(b).len())),
{
    if let CommandBodyV::Notify { set } = b {
        let w = spec_write_command_body(b);
        assert(s[i] == w[0]);
        assert(w[0] == crate::notify::NOTIFY_SP@[0]);
        crate::chars::lemma_not_keyword(s, i, SETACL_SP@, 0);
        crate::chars::lemma_not_keyword(s, i, DELETEACL_SP@, 0);
        crate::chars::lemma_not_keyword(s, i, GETACL_SP@, 0);
        crate::chars::lemma_not_keyword(s, i, LISTRIGHTS_SP@, 0);
        crate::chars::lemma_not_keyword(s, i, MYRIGHTS_SP@, 0);
        lemma_no_acl_command(s, i);
        crate::notify::lemma_notify_round_trip(set, s, i);
    }
}

/// A set or `$` followed by `SP` and a mailbox, written at `i` after the
/// word `kw`, reads back.
proof fn lemma_set_and_mailbox_round_trip(q: Option<Seq<SequenceV>>, m: MailboxV, kw: Seq<u8>, s: Seq<u8>, i: int)
    requires
        q matches Some(es) ==> crate::sequence::wf_sequence_set(es),
        crate::mailbox::writable_mailbox(m),
        0 <= i,
        ({
            let w = kw + spec_write_sequence_set_or_saved(q) + seq![SP] + spec_write_mailbox(m);
            &&& i + w.len() < s.len()
            &&& s.subrange(i, i + w.len()) == w
            &&& !crate::chars::is_astring_char(s[i + w.len()])
        }),
    ensures
        spec_set_and_mailbox(s, i, kw) == Some(((q, m), i + kw.len() + spec_write_sequence_set_or_saved(q).len() + 1
            + spec_write_mailbox(m).len())),
{
    let wq = spec_write_sequence_set_or_saved(q);
    let wm = spec_write_mailbox(m);
    let w = kw + wq + seq![SP] + wm;
    crate::chars::lemma_part(s, i, w, 0, kw.len() as int);
    assert(w.subrange(0, kw.len() as int) =~= kw);
    crate::chars::lemma_keyword_at(s, i, kw);
    let a = kw.len() as int;
    crate::chars::lemma_part(s, i, w, a, wq.len() as int);
    assert(w.subrange(a, a + wq.len()) =~= wq);
    assert(s[i + a + wq.len()] == w[a + wq.len()]);
    crate::sequence::lemma_sequence_set_or_saved_round_trip(q, s, i + a);
    let b = a + wq.len() + 1;
    crate::chars::lemma_part(s, i, w, b, wm.len() as int);
    assert(w.subrange(b, b + wm.len()) =~= wm);
    crate::mailbox::lemma_mailbox_round_trip(m, s, i + b);
}

/// A body of [`round_trip_body`], written at `i` and followed by CR,
/// reads back as itself.
pub proof fn lemma_command_body_round_trip(b: CommandBodyV, s: Seq<u8>, i: int)
    requires
        round_trip_body(b),
        0 <= i,
        i + spec_write_command_body(b).len() < s.len(),
        s.subrange(i, i + spec_write_command_body(b).len()) == spec_write_command_body(b),
        s[i + spec_write_command_body(b).len()] == CR,
    ensures
        spec_command_body(s, i) == Some((b, i + spec_write_command_body(b).len())),
{
    let w = spec_write_command_body(b);
    match b {
        CommandBodyV::SetAcl { .. } | CommandBodyV::DeleteAcl { .. } | CommandBodyV::GetAcl { .. }
        | CommandBodyV::ListRights { .. } | CommandBodyV::MyRights { .. } => {
            crate::acl::lemma_acl_command_round_trip(b, s, i);
        },
        CommandBodyV::Unauthenticate => {
            lemma_unauthenticate_round_trip(s, i);
        },
        CommandBodyV::GenUrlAuth { .. } => {
            lemma_genurlauth_cmd_round_trip(b, s, i);
        },
        CommandBodyV::ResetKey { .. } => {
            lemma_resetkey_cmd_round_trip(b, s, i);
        },
        CommandBodyV::Store { .. } => {
            lemma_store_round_trip(b, s, i);
        },
        CommandBodyV::UrlFetch { .. } => {
            lemma_urlfetch_cmd_round_trip(b, s, i);
        },
        CommandBodyV::Notify { .. } => {
            lemma_notify_cmd_round_trip(b, s, i);
        },
        CommandBodyV::Status { .. } => {
            lemma_status_round_trip(b, s, i);
        },
        CommandBodyV::List { .. } => {
            lemma_list_round_trip(b, s, i);
        },
        CommandBodyV::Copy { sequence_set, mailbox, uid } => {
            lemma_copy_round_trip(b, s, i);
        },
        CommandBodyV::Move { sequence_set, mailbox, uid } => {
            lemma_move_round_trip(b, s, i);
        },
        CommandBodyV::ExpungeUid { sequence_set } => {
            lemma_expunge_round_trip(b, s, i);
        },
        CommandBodyV::Fetch { .. } => {
            lemma_fetch_round_trip(b, s, i);
        },
        CommandBodyV::Search { .. } => {
            lemma_search_round_trip(b, s, i);
        },
    }
}

/// Where the words before `COPY` and `MOVE` are not, given the first two
/// bytes.
proof fn lemma_before_copy_fail(s: Seq<u8>, i: int)
    requires
        0 <= i,
        i + 5 < s.len(),
        (s[i] == 67u8 && s[i + 1] == 79u8) || (s[i] == 77u8 && s[i + 1] == 79u8),
    ensures
        crate::acl::spec_acl_command(s, i) is None,
        crate::notify::spec_notify(s, i) is None,
        !crate::chars::spec_keyword(s, i, UNAUTHENTICATE@),
        crate::urlauth::spec_genurlauth(s, i) is None,
        crate::urlauth::spec_resetkey(s, i) is None,
        crate::urlauth::spec_urlfetch(s, i) is None,
        spec_list_cmd(s, i) is None,
        spec_search_cmd(s, i, false) is None,
        spec_fetch_cmd(s, i, false) is None,
        spec_status_cmd(s, i) is None,
        spec_store_cmd(s, i, false) is None,
{
    lemma_words_begin(s, i);
    crate::chars::lemma_not_keyword(s, i, SETACL_SP@, 0);
    crate::chars::lemma_not_keyword(s, i, DELETEACL_SP@, 0);
    crate::chars::lemma_not_keyword(s, i, GETACL_SP@, 0);
    crate::chars::lemma_not_keyword(s, i, LISTRIGHTS_SP@, 0);
    crate::chars::lemma_not_keyword(s, i, MYRIGHTS_SP@, 1);
    lemma_no_acl_command(s, i);
    crate::chars::lemma_not_keyword(s, i, crate::notify::NOTIFY_SP@, 0);
    crate::chars::lemma_not_keyword(s, i, UNAUTHENTICATE@, 0);
    crate::chars::lemma_not_keyword(s, i, crate::urlauth::GENURLAUTH@, 0);
    crate::chars::lemma_not_keyword(s, i, crate::urlauth::RESETKEY@, 0);
    crate::chars::lemma_not_keyword(s, i, crate::urlauth::URLFETCH@, 0);
    crate::chars::lemma_not_keyword(s, i, LIST@, 0);
    crate::chars::lemma_not_keyword(s, i, SEARCH@, 0);
    crate::chars::lemma_not_keyword(s, i, FETCH_SP@, 0);
    crate::chars::lemma_not_keyword(s, i, STATUS_SP@, 0);
    crate::chars::lemma_not_keyword(s, i, STORE_SP@, 0);
}

#[verifier::rlimit(100)]
proof fn lemma_copy_round_trip(b: CommandBodyV, s: Seq<u8>, i: int)
    requires
        b is Copy,
        round_trip_body(b),
        0 <= i,
        i + spec_write_command_body(b).len() < s.len(),
        s.subrange(i, i + spec_write_command_body(b).len()) == spec_write_command_body(b),
        s[i + spec_write_command_body(b).len()] == CR,
    ensures
        spec_command_body(s, i) == Some((b, i + spec_write_command_body(b).len())),
{
    if let CommandBodyV::Copy { sequence_set, mailbox, uid } = b {
        let w = spec_write_command_body(b);
        let p = spec_uid_prefix(uid);
        let rest = COPY_SP@ + spec_write_sequence_set_or_saved(sequence_set) + seq![SP] + spec_write_mailbox(mailbox);
        assert(w =~= p + rest);
        crate::chars::lemma_part(s, i, w, p.len() as int, rest.len() as int);
        assert(w.subrange(p.len() as int, w.len() as int) =~= rest);
        lemma_set_and_mailbox_round_trip(sequence_set, mailbox, COPY_SP@, s, i + p.len());
        if uid {
            assert(s[i] == w[0] && s[i + 1] == w[1]);
            lemma_uid_prefix_fail(s, i, true);
            crate::chars::lemma_part(s, i, w, 0, 4);
            assert(w.subrange(0, 4) =~= crate::search::UID_SP@);
            crate::chars::lemma_keyword_at(s, i, crate::search::UID_SP@);
            reveal(spec_uid_cmd);
        } else {
            assert(s[i] == w[0] && s[i + 1] == w[1]);
            lemma_before_copy_fail(s, i);
        }
    }
}

#[verifier::rlimit(100)]
proof fn lemma_move_round_trip(b: CommandBodyV, s: Seq<u8>, i: int)
    requires
        b is Move,
        round_trip_body(b),
        0 <= i,
        i + spec_write_command_body(b).len() < s.len(),
        s.subrange(i, i + spec_write_command_body(b).len()) == spec_write_command_body(b),
        s[i + spec_write_command_body(b).len()] == CR,
    ensures
        spec_command_body(s, i) == Some((b, i + spec_write_command_body(b).len())),
{
    if let CommandBodyV::Move { sequence_set, mailbox, uid } = b {
        let w = spec_write_command_body(b);
        let p = spec_uid_prefix(uid);
        let rest = MOVE_SP@ + spec_write_sequence_set_or_saved(sequence_set) + seq![SP] + spec_write_mailbox(mailbox);
        assert(w =~= p + rest);
        crate::chars::lemma_part(s, i, w, p.len() as int, rest.len() as int);
        assert(w.subrange(p.len() as int, w.len() as int) =~= rest);
        lemma_set_and_mailbox_round_trip(sequence_set, mailbox, MOVE_SP@, s, i + p.len());
        assert(s[i + p.len()] == rest[0]);
        crate::chars::lemma_not_keyword(s, i + p.len(), COPY_SP@, 0);
        if uid {
            assert(s[i] == w[0] && s[i + 1] == w[1]);
            lemma_uid_prefix_fail(s, i, true);
            crate::chars::lemma_part(s, i, w, 0, 4);
            assert(w.subrange(0, 4) =~= crate::search::UID_SP@);
            crate::chars::lemma_keyword_at(s, i, crate::search::UID_SP@);
            reveal(spec_uid_cmd);
        } else {
            assert(s[i] == w[0] && s[i + 1] == w[1]);
            lemma_before_copy_fail(s, i);
        }
    }
}

/// Where `UID` begins, the words tried before it are not.
proof fn lemma_uid_prefix_fail(s: Seq<u8>, i: int, uid: bool)
    requires
        0 <= i,
        i + 5 < s.len(),
        s[i] == 85u8,
        s[i + 1] == 73u8,
    ensures
        crate::acl::spec_acl_command(s, i) is None,
        crate::notify::spec_notify(s, i) is None,
        !crate::chars::spec_keyword(s, i, UNAUTHENTICATE@),
        crate::urlauth::spec_genurlauth(s, i) is None,
        crate::urlauth::spec_resetkey(s, i) is None,
        crate::urlauth::spec_urlfetch(s, i) is None,
        spec_list_cmd(s, i) is None,
        spec_search_cmd(s, i, false) is None,
        spec_fetch_cmd(s, i, false) is None,
        spec_status_cmd(s, i) is None,
        spec_store_cmd(s, i, false) is None,
        spec_copy_or_move(s, i, false) is None,
{
    lemma_words_begin(s, i);
    crate::chars::lemma_not_keyword(s, i, SETACL_SP@, 0);
    crate::chars::lemma_not_keyword(s, i, DELETEACL_SP@, 0);
    crate::chars::lemma_not_keyword(s, i, GETACL_SP@, 0);
    crate::chars::lemma_not_keyword(s, i, LISTRIGHTS_SP@, 0);
    crate::chars::lemma_not_keyword(s, i, MYRIGHTS_SP@, 0);
    lemma_no_acl_command(s, i);
    crate::chars::lemma_not_keyword(s, i, crate::notify::NOTIFY_SP@, 0);
    crate::chars::lemma_not_keyword(s, i, UNAUTHENTICATE@, 1);
    crate::chars::lemma_not_keyword(s, i, crate::urlauth::GENURLAUTH@, 0);
    crate::chars::lemma_not_keyword(s, i, crate::urlauth::RESETKEY@, 0);
    crate::chars::lemma_not_keyword(s, i, crate::urlauth::URLFETCH@, 1);
    crate::chars::lemma_not_keyword(s, i, LIST@, 0);
    crate::chars::lemma_not_keyword(s, i, SEARCH@, 0);
    crate::chars::lemma_not_keyword(s, i, FETCH_SP@, 0);
    crate::chars::lemma_not_keyword(s, i, STATUS_SP@, 0);
    crate::chars::lemma_not_keyword(s, i, STORE_SP@, 0);
    crate::chars::lemma_not_keyword(s, i, COPY_SP@, 0);
    crate::chars::lemma_not_keyword(s, i, MOVE_SP@, 0);
}

#[verifier::rlimit(100)]
proof fn lemma_expunge_round_trip(b: CommandBodyV, s: Seq<u8>, i: int)
    requires
        b is ExpungeUid,
        round_trip_body(b),
        0 <= i,
        i + spec_write_command_body(b).len() < s.len(),
        s.subrange(i, i + spec_write_command_body(b).len()) == spec_write_command_body(b),
        s[i + spec_write_command_body(b).len()] == CR,
    ensures
        spec_command_body(s, i) == Some((b, i + spec_write_command_body(b).len())),
{
    if let CommandBodyV::ExpungeUid { sequence_set } = b {
        let w = spec_write_command_body(b);
        let wq = spec_write_sequence_set_or_saved(sequence_set);
        assert(s[i] == w[0] && s[i + 1] == w[1]);
        lemma_uid_prefix_fail(s, i, true);
        crate::chars::lemma_part(s, i, w, 0, 4);
        assert(w.subrange(0, 4) =~= crate::search::UID_SP@);
        crate::chars::lemma_keyword_at(s, i, crate::search::UID_SP@);
        let j = i + 4;
        reveal(spec_uid_cmd);
        lemma_words_begin(s, j);
        assert(s[j] == w[4]);
        crate::chars::lemma_not_keyword(s, j, COPY_SP@, 0);
        crate::chars::lemma_not_keyword(s, j, MOVE_SP@, 0);
        crate::chars::lemma_not_keyword(s, j, FETCH_SP@, 0);
        crate::chars::lemma_not_keyword(s, j, SEARCH@, 0);
        crate::chars::lemma_not_keyword(s, j, STORE_SP@, 0);
        crate::chars::lemma_part(s, i, w, 4, 8);
        assert(w.subrange(4, 12) =~= EXPUNGE_SP@);
        crate::chars::lemma_keyword_at(s, j, EXPUNGE_SP@);
        crate::chars::lemma_part(s, i, w, 12, wq.len() as int);
        assert(w.subrange(12, (12 + wq.len()) as int) =~= wq);
        crate::sequence::lemma_sequence_set_or_saved_round_trip(sequence_set, s, i + 12);
    }
}

/// A command whose body is one of [`round_trip_body`], with a tag that
/// can be written, reads back as itself from what it is written as, the
/// whole line consumed.
pub proof fn lemma_command_round_trip(c: CommandV)
    requires
        writable_tag(c.tag),
        round_trip_body(c.body),
    ensures
        spec_command(spec_write_command(c), 0) == Some((c, spec_write_command(c).len() as int)),
{
    let s = spec_write_command(c);
    let t = c.tag;
    let wb = spec_write_command_body(c.body);
    assert(s =~= t + seq![SP] + wb + seq![CR, LF]);
    assert forall|k: int| 0 <= k < t.len() implies crate::chars::ByteClass::Tag.spec_has(#[trigger] s[k]) by {
        assert(s[k] == t[k]);
    }
    assert(s[t.len() as int] == SP);
    crate::chars::lemma_scan_end_of_run(s, 0, t.len() as int, crate::chars::ByteClass::Tag);
    assert(s.subrange(0, t.len() as int) =~= t);
    let j = t.len() + 1;
    let e = j + wb.len();
    assert(s.subrange(j as int, e as int) =~= wb);
    assert(s[e as int] == CR);
    lemma_command_body_round_trip(c.body, s, j as int);
    assert(s[(e + 1) as int] == LF);
}


/// Where a status item name may stand, none stands at `)`.
proof fn lemma_no_status_att_at_rparen(s: Seq<u8>, j: int)
    requires
        0 <= j < s.len(),
        s[j] == RPAREN,
    ensures
        crate::status::spec_status_att(s, j) is None,
{
    crate::chars::lemma_not_keyword(s, j, crate::status::MESSAGES@, 0);
    crate::chars::lemma_not_keyword(s, j, crate::search::RECENT@, 0);
    crate::chars::lemma_not_keyword(s, j, crate::status::UIDNEXT@, 0);
    crate::chars::lemma_not_keyword(s, j, crate::status::UIDVALIDITY@, 0);
    crate::chars::lemma_not_keyword(s, j, crate::search::UNSEEN@, 0);
    crate::chars::lemma_not_keyword(s, j, crate::status::DELETED_STORAGE@, 0);
    crate::chars::lemma_not_keyword(s, j, crate::search::DELETED@, 0);
    crate::chars::lemma_not_keyword(s, j, crate::status::SIZE@, 0);
    crate::chars::lemma_not_keyword(s, j, crate::status::MAILBOXID@, 0);
}

#[verifier::rlimit(100)]
proof fn lemma_status_round_trip(b: CommandBodyV, s: Seq<u8>, i: int)
    requires
        b is Status,
        round_trip_body(b),
        0 <= i,
        i + spec_write_command_body(b).len() < s.len(),
        s.subrange(i, i + spec_write_command_body(b).len()) == spec_write_command_body(b),
        s[i + spec_write_command_body(b).len()] == CR,
    ensures
        spec_command_body(s, i) == Some((b, i + spec_write_command_body(b).len())),
{
    if let CommandBodyV::Status { mailbox, item_names } = b {
        let w = spec_write_command_body(b);
        let wm = spec_write_mailbox(mailbox);
        let ws = written(StatusAttWriter, item_names);
        let l = seq![LPAREN] + join(ws, seq![SP]) + seq![RPAREN];
        assert(w =~= STATUS_SP@ + wm + seq![SP] + l);
        lemma_words_begin(s, i);
        assert(s[i] == w[0] && s[i + 1] == w[1]);
        crate::chars::lemma_not_keyword(s, i, SETACL_SP@, 1);
        crate::chars::lemma_not_keyword(s, i, DELETEACL_SP@, 0);
        crate::chars::lemma_not_keyword(s, i, GETACL_SP@, 0);
        crate::chars::lemma_not_keyword(s, i, LISTRIGHTS_SP@, 0);
        crate::chars::lemma_not_keyword(s, i, MYRIGHTS_SP@, 0);
        lemma_no_acl_command(s, i);
        crate::chars::lemma_not_keyword(s, i, crate::notify::NOTIFY_SP@, 0);
        crate::chars::lemma_not_keyword(s, i, UNAUTHENTICATE@, 0);
        crate::chars::lemma_not_keyword(s, i, crate::urlauth::GENURLAUTH@, 0);
        crate::chars::lemma_not_keyword(s, i, crate::urlauth::RESETKEY@, 0);
        crate::chars::lemma_not_keyword(s, i, crate::urlauth::URLFETCH@, 0);
        crate::chars::lemma_not_keyword(s, i, LIST@, 0);
        crate::chars::lemma_not_keyword(s, i, SEARCH@, 1);
        crate::chars::lemma_not_keyword(s, i, FETCH_SP@, 0);
        reveal(spec_status_cmd);
        crate::chars::lemma_part(s, i, w, 0, 7);
        assert(w.subrange(0, 7) =~= STATUS_SP@);
        crate::chars::lemma_keyword_at(s, i, STATUS_SP@);
        crate::chars::lemma_part(s, i, w, 7, wm.len() as int);
        assert(w.subrange(7, (7 + wm.len()) as int) =~= wm);
        assert(s[i + 7 + wm.len()] == w[7 + wm.len() as int]);
        crate::mailbox::lemma_mailbox_round_trip(mailbox, s, i + 7);
        let a = 8 + wm.len();
        crate::chars::lemma_part(s, i, w, a as int, l.len() as int);
        assert(w.subrange(a as int, (a + l.len()) as int) =~= l);
        let after = |c: u8| c == SP || c == RPAREN;
        assert forall|k: int, j: int| 0 <= k < item_names.len() implies #[trigger] crate::rule::reads_at(StatusAttRule, s, j, item_names[k], ws[k], after) by {
            if 0 <= j && j + ws[k].len() < s.len() && s.subrange(j, j + ws[k].len()) == ws[k] && after(s[j + ws[k].len()]) {
                crate::status::lemma_status_att_round_trip(item_names[k], s, j);
            }
        }
        if item_names.len() == 0 {
            assert(join(ws, seq![SP]) == Seq::<u8>::empty());
            assert(s[i + a + 1] == l[1]);
            lemma_no_status_att_at_rparen(s, i + a + 1);
        }
        crate::rule::lemma_paren_list_round_trip(StatusAttRule, item_names, ws, s, i + a, true, after);
    }
}



/// Where a `LIST` is written at `i`, the command body read there is what
/// `LIST` reads.
#[verifier::rlimit(100)]
#[verifier::spinoff_prover]
proof fn lemma_list_first(b: CommandBodyV, s: Seq<u8>, i: int)
    requires
        b is List,
        0 <= i,
        i + spec_write_command_body(b).len() < s.len(),
        s.subrange(i, i + spec_write_command_body(b).len()) == spec_write_command_body(b),
    ensures
        spec_command_body(s, i) == spec_list_cmd(s, i),
{
    let w = spec_write_command_body(b);
    lemma_words_begin(s, i);
    assert(s[i] == w[0] && s[i + 4] == w[4]);
    assert(w[0] == LIST@[0] && w[4] == SP);
    crate::chars::lemma_not_keyword(s, i, SETACL_SP@, 0);
    crate::chars::lemma_not_keyword(s, i, DELETEACL_SP@, 0);
    crate::chars::lemma_not_keyword(s, i, GETACL_SP@, 0);
    crate::chars::lemma_not_keyword(s, i, LISTRIGHTS_SP@, 4);
    crate::chars::lemma_not_keyword(s, i, MYRIGHTS_SP@, 0);
    lemma_no_acl_command(s, i);
    crate::chars::lemma_not_keyword(s, i, crate::notify::NOTIFY_SP@, 0);
    crate::chars::lemma_not_keyword(s, i, UNAUTHENTICATE@, 0);
    crate::chars::lemma_not_keyword(s, i, crate::urlauth::GENURLAUTH@, 0);
    crate::chars::lemma_not_keyword(s, i, crate::urlauth::RESETKEY@, 0);
    crate::chars::lemma_not_keyword(s, i, crate::urlauth::URLFETCH@, 0);
}

/// How a `LIST` command is written, from its name on.
pub open spec fn spec_write_list_cmd(
    reference: MailboxV,
    patterns: ListPatternsV,
    selection_options: Option<Seq<ListSelectOption>>,
    return_options: Option<Seq<ListReturnOptionV>>,
) -> Seq<u8> {
    LIST@ + (match selection_options {
        Some(os) => seq![SP] + spec_write_list_select_opts(os),
        None => seq![],
    }) + seq![SP] + spec_write_mailbox(reference) + seq![SP] + spec_write_list_patterns(patterns) + match return_options {
        Some(ro) => seq![SP] + spec_write_list_return_opts(ro),
        None => seq![],
    }
}

/// A `LIST` command, written at `i` and followed by CR, reads back.
#[verifier::rlimit(100)]
proof fn lemma_list_cmd_round_trip(
    reference: MailboxV,
    patterns: ListPatternsV,
    selection_options: Option<Seq<ListSelectOption>>,
    return_options: Option<Seq<ListReturnOptionV>>,
    s: Seq<u8>,
    i: int,
)
    requires
        crate::mailbox::writable_mailbox(reference),
        crate::mailbox::writable_list_patterns(patterns),
        selection_options matches Some(os) ==> crate::mailbox::spec_valid_combination(os),
        return_options matches Some(ro) ==> forall|k: int| 0 <= k < ro.len()
            ==> (#[trigger] ro[k] matches ListReturnOptionV::Status(items) ==> items.len() > 0),
        0 <= i,
        i + spec_write_list_cmd(reference, patterns, selection_options, return_options).len() < s.len(),
        s.subrange(i, i + spec_write_list_cmd(reference, patterns, selection_options, return_options).len())
            == spec_write_list_cmd(reference, patterns, selection_options, return_options),
        s[i + spec_write_list_cmd(reference, patterns, selection_options, return_options).len()] == CR,
    ensures
        spec_list_cmd(s, i) == Some((
            CommandBodyV::List { reference, patterns, selection_options, return_options },
            i + spec_write_list_cmd(reference, patterns, selection_options, return_options).len(),
        )),
{
    let w = spec_write_list_cmd(reference, patterns, selection_options, return_options);
    let sel = match selection_options {
        Some(os) => seq![SP] + spec_write_list_select_opts(os),
        None => Seq::<u8>::empty(),
    };
    let wr = spec_write_mailbox(reference);
    let wp = spec_write_list_patterns(patterns);
    let ret = match return_options {
        Some(ro) => seq![SP] + spec_write_list_return_opts(ro),
        None => Seq::<u8>::empty(),
    };
    assert(w =~= LIST@ + sel + seq![SP] + wr + seq![SP] + wp + ret);
    reveal(spec_list_cmd);
    crate::chars::lemma_part(s, i, w, 0, 4);
    assert(w.subrange(0, 4) =~= LIST@);
    crate::chars::lemma_keyword_at(s, i, LIST@);
    assert(s[i + 4] == w[4]);
    let j = i + 4 + sel.len();
    match selection_options {
        Some(os) => {
            let x = spec_write_list_select_opts(os);
            crate::chars::lemma_part(s, i, w, 5, x.len() as int);
            assert(w.subrange(5, (5 + x.len()) as int) =~= x);
            crate::mailbox::lemma_list_select_opts_round_trip(os, s, i + 5);
            assert(spec_list_select_opts(s, i + 5) == Some((os, j)));
        },
        None => {
            crate::mailbox::lemma_mailbox_not_paren(reference);
            assert(s[i + 5] == w[5]);
            assert(w[5] == wr[0]);
            assert(spec_list_select_opts(s, i + 5) is None);
        },
    }
    assert(s[j] == w[j - i]);
    let k = j + 1 + wr.len();
    crate::chars::lemma_part(s, i, w, j + 1 - i, wr.len() as int);
    assert(w.subrange(j + 1 - i, k - i) =~= wr);
    assert(s[k] == w[k - i]);
    crate::mailbox::lemma_mailbox_round_trip(reference, s, j + 1);
    assert(spec_mailbox(s, j + 1) == Some((reference, k)));
    let l = k + 1 + wp.len();
    crate::chars::lemma_part(s, i, w, k + 1 - i, wp.len() as int);
    assert(w.subrange(k + 1 - i, l - i) =~= wp);
    match return_options {
        Some(ro) => {
            assert(s[l] == w[l - i]);
            let x = spec_write_list_return_opts(ro);
            crate::chars::lemma_part(s, i, w, l + 1 - i, x.len() as int);
            assert(w.subrange(l + 1 - i, l + 1 - i + x.len()) =~= x);
            crate::mailbox::lemma_list_return_opts_round_trip(ro, s, l + 1);
            assert(l + 1 + x.len() == i + w.len());
        },
        None => {
            assert(l == i + w.len());
        },
    }
    crate::mailbox::lemma_list_patterns_round_trip(patterns, s, k + 1);
}

proof fn lemma_list_round_trip(b: CommandBodyV, s: Seq<u8>, i: int)
    requires
        b is List,
        round_trip_body(b),
        0 <= i,
        i + spec_write_command_body(b).len() < s.len(),
        s.subrange(i, i + spec_write_command_body(b).len()) == spec_write_command_body(b),
        s[i + spec_write_command_body(b).len()] == CR,
    ensures
        spec_command_body(s, i) == Some((b, i + spec_write_command_body(b).len())),
{
    lemma_list_first(b, s, i);
    if let CommandBodyV::List { reference, patterns, selection_options, return_options } = b {
        assert(spec_write_command_body(b) == spec_write_list_cmd(reference, patterns, selection_options, return_options));
        lemma_list_cmd_round_trip(reference, patterns, selection_options, return_options, s, i);
    }
}

} // verus!

verus! {

// ---------------------------------------------------------------------
// The words each form is written with.

/// How each form of a command body is written, its words spelled out byte by byte.
pub proof fn lemma_command_body_written()
    ensures
        forall|v: CommandBodyV| #![trigger spec_write_command_body(v)] v matches CommandBodyV::SetAcl { mailbox, identifier, rights } ==> spec_write_command_body(v) == seq![83u8, 69, 84, 65, 67, 76, 32] + spec_write_mailbox(mailbox) + seq![SP] + spec_write_str(identifier) + seq![SP] + spec_write_str(rights),
        forall|v: CommandBodyV| #![trigger spec_write_command_body(v)] v matches CommandBodyV::DeleteAcl { mailbox, identifier } ==> spec_write_command_body(v) == seq![68u8, 69, 76, 69, 84, 69, 65, 67, 76, 32] + spec_write_mailbox(mailbox) + seq![SP] + spec_write_str(identifier),
        forall|v: CommandBodyV| #![trigger spec_write_command_body(v)] v matches CommandBodyV::GetAcl { mailbox } ==> spec_write_command_body(v) == seq![71u8, 69, 84, 65, 67, 76, 32] + spec_write_mailbox(mailbox),
        forall|v: CommandBodyV| #![trigger spec_write_command_body(v)] v matches CommandBodyV::ListRights { mailbox, identifier } ==> spec_write_command_body(v) == seq![76u8, 73, 83, 84, 82, 73, 71, 72, 84, 83, 32] + spec_write_mailbox(mailbox) + seq![SP] + spec_write_str(identifier),
        forall|v: CommandBodyV| #![trigger spec_write_command_body(v)] v matches CommandBodyV::MyRights { mailbox } ==> spec_write_command_body(v) == seq![77u8, 89, 82, 73, 71, 72, 84, 83, 32] + spec_write_mailbox(mailbox),
        spec_write_command_body(CommandBodyV::Unauthenticate) == seq![85u8, 78, 65, 85, 84, 72, 69, 78, 84, 73, 67, 65, 84, 69],
        forall|v: CommandBodyV| #![trigger spec_write_command_body(v)] v matches CommandBodyV::List { reference, patterns, selection_options, return_options } ==> spec_write_command_body(v) == seq![76u8, 73, 83, 84] + (match selection_options { Some(os) => seq![SP] + spec_write_list_select_opts(os), None => seq![], }) + seq![SP] + spec_write_mailbox(reference) + seq![SP] + spec_write_list_patterns(patterns) + match return_options { Some(ro) => seq![SP] + spec_write_list_return_opts(ro), None => seq![], },
        forall|v: CommandBodyV| #![trigger spec_write_command_body(v)] v matches CommandBodyV::Search { return_options, charset, criteria, uid } ==> spec_write_command_body(v) == spec_uid_prefix(uid) + seq![83u8, 69, 65, 82, 67, 72] + (match return_options { Some(ro) => spec_write_search_return_opts(ro), None => seq![], }) + (match charset { Some(cs) => seq![32u8, 67, 72, 65, 82, 83, 69, 84, 32] + spec_write_str(cs), None => seq![], }) + seq![SP] + join(written(SearchKeyWriter, criteria), seq![SP]),
        forall|v: CommandBodyV| #![trigger spec_write_command_body(v)] v matches CommandBodyV::Fetch { sequence_set, items, uid } ==> spec_write_command_body(v) == spec_uid_prefix(uid) + seq![70u8, 69, 84, 67, 72, 32] + spec_write_sequence_set_or_saved(sequence_set) + seq![SP] + spec_write_macro_or_items(items),
        forall|v: CommandBodyV| #![trigger spec_write_command_body(v)] v matches CommandBodyV::Status { mailbox, item_names } ==> spec_write_command_body(v) == seq![83u8, 84, 65, 84, 85, 83, 32] + spec_write_mailbox(mailbox) + seq![SP, LPAREN] + join(written(StatusAttWriter, item_names), seq![SP]) + seq![RPAREN],
        forall|v: CommandBodyV| #![trigger spec_write_command_body(v)] v matches CommandBodyV::Store { sequence_set, kind, response, flags, uid } ==> spec_write_command_body(v) == spec_uid_prefix(uid) + seq![83u8, 84, 79, 82, 69, 32] + spec_write_sequence_set_or_saved(sequence_set) + seq![SP] + spec_write_store_kind(kind, response) + seq![SP] + spec_write_flag_list(flags),
        forall|v: CommandBodyV| #![trigger spec_write_command_body(v)] v matches CommandBodyV::Copy { sequence_set, mailbox, uid } ==> spec_write_command_body(v) == spec_uid_prefix(uid) + seq![67u8, 79, 80, 89, 32] + spec_write_sequence_set_or_saved(sequence_set) + seq![SP] + spec_write_mailbox(mailbox),
        forall|v: CommandBodyV| #![trigger spec_write_command_body(v)] v matches CommandBodyV::Move { sequence_set, mailbox, uid } ==> spec_write_command_body(v) == spec_uid_prefix(uid) + seq![77u8, 79, 86, 69, 32] + spec_write_sequence_set_or_saved(sequence_set) + seq![SP] + spec_write_mailbox(mailbox),
        forall|v: CommandBodyV| #![trigger spec_write_command_body(v)] v matches CommandBodyV::ExpungeUid { sequence_set } ==> spec_write_command_body(v) == seq![85u8, 73, 68, 32] + seq![69u8, 88, 80, 85, 78, 71, 69, 32] + spec_write_sequence_set_or_saved(sequence_set),
{
    assert(COPY_SP@ =~= seq![67u8, 79, 80, 89, 32]);
    assert(DELETEACL_SP@ =~= seq![68u8, 69, 76, 69, 84, 69, 65, 67, 76, 32]);
    assert(EXPUNGE_SP@ =~= seq![69u8, 88, 80, 85, 78, 71, 69, 32]);
    assert(FETCH_SP@ =~= seq![70u8, 69, 84, 67, 72, 32]);
    assert(GETACL_SP@ =~= seq![71u8, 69, 84, 65, 67, 76, 32]);
    assert(LIST@ =~= seq![76u8, 73, 83, 84]);
    assert(LISTRIGHTS_SP@ =~= seq![76u8, 73, 83, 84, 82, 73, 71, 72, 84, 83, 32]);
    assert(MOVE_SP@ =~= seq![77u8, 79, 86, 69, 32]);
    assert(MYRIGHTS_SP@ =~= seq![77u8, 89, 82, 73, 71, 72, 84, 83, 32]);
    assert(SEARCH@ =~= seq![83u8, 69, 65, 82, 67, 72]);
    assert(SETACL_SP@ =~= seq![83u8, 69, 84, 65, 67, 76, 32]);
    assert(SP_CHARSET_SP@ =~= seq![32u8, 67, 72, 65, 82, 83, 69, 84, 32]);
    assert(STATUS_SP@ =~= seq![83u8, 84, 65, 84, 85, 83, 32]);
    assert(STORE_SP@ =~= seq![83u8, 84, 79, 82, 69, 32]);
    assert(UNAUTHENTICATE@ =~= seq![85u8, 78, 65, 85, 84, 72, 69, 78, 84, 73, 67, 65, 84, 69]);
    assert(crate::search::UID_SP@ =~= seq![85u8, 73, 68, 32]);
}

} // verus!
