//! Access control lists (RFC 4314): how the five commands and the three
//! responses are read; the values are `CommandBody` and `Data` variants.

use vstd::prelude::*;

use crate::chars::{byte, keyword, spec_byte, spec_keyword, SP};
use crate::command::{
    CommandBody, CommandBodyV, DELETEACL_SP, GETACL_SP, LISTRIGHTS_SP, MYRIGHTS_SP, SETACL_SP,
};
use crate::mailbox::{read_mailbox, spec_mailbox, Mailbox, MailboxV};
use crate::rule::read_view;
use crate::strings::{read_astring, spec_astring, AString, StrV};

verus! {

/// `mailbox SP astring`
pub open spec fn spec_mailbox_astring(s: Seq<u8>, i: int) -> Option<((MailboxV, StrV), int)> {
    match spec_mailbox(s, i) {
        Some((m, j)) => if spec_byte(s, j, SP) {
            match spec_astring(s, j + 1) {
                Some((a, k)) => Some(((m, a), k)),
                None => None,
            }
        } else {
            None
        },
        None => None,
    }
}

fn read_mailbox_astring(s: &[u8], i: usize) -> (r: Option<((Mailbox, AString), usize)>)
    requires
        i <= s@.len(),
    ensures
        read_view(r) == spec_mailbox_astring(s@, i as int),
        r matches Some((_, j)) ==> i < j <= s@.len(),
{
    match read_mailbox(s, i) {
        Some((m, j)) => if byte(s, j, SP) {
            match read_astring(s, j + 1) {
                Some((a, k)) => Some(((m, a), k)),
                None => None,
            }
        } else {
            None
        },
        None => None,
    }
}

/// `setacl = "SETACL" SP mailbox SP identifier SP mod-rights`, where
/// `identifier = astring` and `mod-rights = astring`.
pub open spec fn spec_setacl(s: Seq<u8>, i: int) -> Option<(CommandBodyV, int)> {
    if spec_keyword(s, i, SETACL_SP@) {
        match spec_mailbox_astring(s, i + 7) {
            Some(((m, id), k)) => if spec_byte(s, k, SP) {
                match spec_astring(s, k + 1) {
                    Some((r, l)) => Some((CommandBodyV::SetAcl { mailbox: m, identifier: id, rights: r }, l)),
                    None => None,
                }
            } else {
                None
            },
            None => None,
        }
    } else {
        None
    }
}

/// `deleteacl = "DELETEACL" SP mailbox SP identifier`
pub open spec fn spec_deleteacl(s: Seq<u8>, i: int) -> Option<(CommandBodyV, int)> {
    if spec_keyword(s, i, DELETEACL_SP@) {
        match spec_mailbox_astring(s, i + 10) {
            Some(((m, id), k)) => Some((CommandBodyV::DeleteAcl { mailbox: m, identifier: id }, k)),
            None => None,
        }
    } else {
        None
    }
}

/// `getacl = "GETACL" SP mailbox`
pub open spec fn spec_getacl(s: Seq<u8>, i: int) -> Option<(CommandBodyV, int)> {
    if spec_keyword(s, i, GETACL_SP@) {
        match spec_mailbox(s, i + 7) {
            Some((m, k)) => Some((CommandBodyV::GetAcl { mailbox: m }, k)),
            None => None,
        }
    } else {
        None
    }
}

/// `listrights = "LISTRIGHTS" SP mailbox SP identifier`
pub open spec fn spec_listrights(s: Seq<u8>, i: int) -> Option<(CommandBodyV, int)> {
    if spec_keyword(s, i, LISTRIGHTS_SP@) {
        match spec_mailbox_astring(s, i + 11) {
            Some(((m, id), k)) => Some((CommandBodyV::ListRights { mailbox: m, identifier: id }, k)),
            None => None,
        }
    } else {
        None
    }
}

/// `myrights = "MYRIGHTS" SP mailbox`
pub open spec fn spec_myrights(s: Seq<u8>, i: int) -> Option<(CommandBodyV, int)> {
    if spec_keyword(s, i, MYRIGHTS_SP@) {
        match spec_mailbox(s, i + 9) {
            Some((m, k)) => Some((CommandBodyV::MyRights { mailbox: m }, k)),
            None => None,
        }
    } else {
        None
    }
}

/// `command-auth =/ setacl / deleteacl / getacl / listrights / myrights`
pub open spec fn spec_acl_command(s: Seq<u8>, i: int) -> Option<(CommandBodyV, int)> {
    let r = spec_setacl(s, i);
    let r = crate::search::alt(r, spec_deleteacl(s, i));
    let r = crate::search::alt(r, spec_getacl(s, i));
    let r = crate::search::alt(r, spec_listrights(s, i));
    crate::search::alt(r, spec_myrights(s, i))
}

/// Reads one of the five commands at `i`.
pub fn read_acl_command(s: &[u8], i: usize) -> (r: Option<(CommandBody, usize)>)
    requires
        i <= s@.len(),
    ensures
        read_view(r) == spec_acl_command(s@, i as int),
        r matches Some((_, j)) ==> i < j <= s@.len(),
{
    if keyword(s, i, SETACL_SP.as_slice()) {
        if let Some(((m, id), k)) = read_mailbox_astring(s, i + 7) {
            if byte(s, k, SP) {
                if let Some((r, l)) = read_astring(s, k + 1) {
                    return Some((CommandBody::SetAcl { mailbox: m, identifier: id, rights: r }, l));
                }
            }
        }
    }
    if keyword(s, i, DELETEACL_SP.as_slice()) {
        if let Some(((m, id), k)) = read_mailbox_astring(s, i + 10) {
            return Some((CommandBody::DeleteAcl { mailbox: m, identifier: id }, k));
        }
    }
    if keyword(s, i, GETACL_SP.as_slice()) {
        if let Some((m, k)) = read_mailbox(s, i + 7) {
            return Some((CommandBody::GetAcl { mailbox: m }, k));
        }
    }
    if keyword(s, i, LISTRIGHTS_SP.as_slice()) {
        if let Some(((m, id), k)) = read_mailbox_astring(s, i + 11) {
            return Some((CommandBody::ListRights { mailbox: m, identifier: id }, k));
        }
    }
    if keyword(s, i, MYRIGHTS_SP.as_slice()) {
        if let Some((m, k)) = read_mailbox(s, i + 9) {
            return Some((CommandBody::MyRights { mailbox: m }, k));
        }
    }
    None
}

} // verus!

verus! {

// ---------------------------------------------------------------------
// What is written reads back.

/// Whether a body is one of the five commands, with a mailbox and
/// strings that can be written and read back.
pub open spec fn writable_acl_body(b: CommandBodyV) -> bool {
    match b {
        CommandBodyV::SetAcl { mailbox, identifier, rights } => crate::mailbox::writable_mailbox(mailbox)
            && crate::strings::writable_str(identifier) && crate::strings::writable_str(rights),
        CommandBodyV::DeleteAcl { mailbox, identifier } => crate::mailbox::writable_mailbox(mailbox)
            && crate::strings::writable_str(identifier),
        CommandBodyV::GetAcl { mailbox } => crate::mailbox::writable_mailbox(mailbox),
        CommandBodyV::ListRights { mailbox, identifier } => crate::mailbox::writable_mailbox(mailbox)
            && crate::strings::writable_str(identifier),
        CommandBodyV::MyRights { mailbox } => crate::mailbox::writable_mailbox(mailbox),
        _ => false,
    }
}

/// `mailbox SP astring`, written at `i`, reads back.
pub(crate) proof fn lemma_mailbox_astring_round_trip(m: MailboxV, a: StrV, s: Seq<u8>, i: int)
    requires
        crate::mailbox::writable_mailbox(m),
        crate::strings::writable_str(a),
        0 <= i,
        ({
            let w = crate::mailbox::spec_write_mailbox(m) + seq![SP] + crate::strings::spec_write_str(a);
            &&& i + w.len() < s.len()
            &&& s.subrange(i, i + w.len()) == w
            &&& !crate::chars::is_astring_char(s[i + w.len()])
        }),
    ensures
        spec_mailbox_astring(s, i) == Some(((m, a), i + crate::mailbox::spec_write_mailbox(m).len() + 1
            + crate::strings::spec_write_str(a).len())),
{
    let wm = crate::mailbox::spec_write_mailbox(m);
    let wa = crate::strings::spec_write_str(a);
    let w = wm + seq![SP] + wa;
    crate::chars::lemma_part(s, i, w, 0, wm.len() as int);
    assert(w.subrange(0, wm.len() as int) =~= wm);
    assert(s[i + wm.len()] == w[wm.len() as int]);
    crate::mailbox::lemma_mailbox_round_trip(m, s, i);
    let p = wm.len() + 1;
    crate::chars::lemma_part(s, i, w, p as int, wa.len() as int);
    assert(w.subrange(p as int, (p + wa.len()) as int) =~= wa);
    crate::strings::lemma_astring_round_trip(a, s, i + wm.len() + 1);
}

proof fn lemma_set_acl_round_trip(b: CommandBodyV, s: Seq<u8>, i: int)
    requires
        writable_acl_body(b),
        b is SetAcl,
        0 <= i,
        i + crate::command::spec_write_command_body(b).len() < s.len(),
        s.subrange(i, i + crate::command::spec_write_command_body(b).len()) == crate::command::spec_write_command_body(b),
        !crate::chars::is_astring_char(s[i + crate::command::spec_write_command_body(b).len()]),
    ensures
        spec_acl_command(s, i) == Some((b, i + crate::command::spec_write_command_body(b).len())),
{
    let w = crate::command::spec_write_command_body(b);
    match b {
        CommandBodyV::SetAcl { mailbox, identifier, rights } => {
            let wm = crate::mailbox::spec_write_mailbox(mailbox);
            let wi = crate::strings::spec_write_str(identifier);
            let wr = crate::strings::spec_write_str(rights);
            crate::chars::lemma_part(s, i, w, 0, 7);
            assert(w.subrange(0, 7) =~= SETACL_SP@);
            crate::chars::lemma_keyword_at(s, i, SETACL_SP@);
            let x = wm + seq![SP] + wi;
            crate::chars::lemma_part(s, i, w, 7, x.len() as int);
            assert(w.subrange(7, (7 + x.len()) as int) =~= x);
            assert(s[i + 7 + x.len()] == w[7 + x.len() as int]);
            lemma_mailbox_astring_round_trip(mailbox, identifier, s, i + 7);
            let p = 8 + x.len();
            crate::chars::lemma_part(s, i, w, p as int, wr.len() as int);
            assert(w.subrange(p as int, (p + wr.len()) as int) =~= wr);
            crate::strings::lemma_astring_round_trip(rights, s, i + 8 + x.len());
        },
        _ => {},
    }
}

proof fn lemma_delete_acl_round_trip(b: CommandBodyV, s: Seq<u8>, i: int)
    requires
        writable_acl_body(b),
        b is DeleteAcl,
        0 <= i,
        i + crate::command::spec_write_command_body(b).len() < s.len(),
        s.subrange(i, i + crate::command::spec_write_command_body(b).len()) == crate::command::spec_write_command_body(b),
        !crate::chars::is_astring_char(s[i + crate::command::spec_write_command_body(b).len()]),
    ensures
        spec_acl_command(s, i) == Some((b, i + crate::command::spec_write_command_body(b).len())),
{
    let w = crate::command::spec_write_command_body(b);
    match b {
        CommandBodyV::DeleteAcl { mailbox, identifier } => {
            crate::chars::lemma_part(s, i, w, 0, 10);
            assert(w.subrange(0, 10) =~= DELETEACL_SP@);
            crate::chars::lemma_keyword_at(s, i, DELETEACL_SP@);
            crate::chars::lemma_not_keyword(s, i, SETACL_SP@, 0);
            let x = w.subrange(10, w.len() as int);
            crate::chars::lemma_part(s, i, w, 10, x.len() as int);
            assert(x =~= crate::mailbox::spec_write_mailbox(mailbox) + seq![SP] + crate::strings::spec_write_str(identifier));
            lemma_mailbox_astring_round_trip(mailbox, identifier, s, i + 10);
        },
        _ => {},
    }
}

proof fn lemma_get_acl_round_trip(b: CommandBodyV, s: Seq<u8>, i: int)
    requires
        writable_acl_body(b),
        b is GetAcl,
        0 <= i,
        i + crate::command::spec_write_command_body(b).len() < s.len(),
        s.subrange(i, i + crate::command::spec_write_command_body(b).len()) == crate::command::spec_write_command_body(b),
        !crate::chars::is_astring_char(s[i + crate::command::spec_write_command_body(b).len()]),
    ensures
        spec_acl_command(s, i) == Some((b, i + crate::command::spec_write_command_body(b).len())),
{
    let w = crate::command::spec_write_command_body(b);
    match b {
        CommandBodyV::GetAcl { mailbox } => {
            crate::chars::lemma_part(s, i, w, 0, 7);
            assert(w.subrange(0, 7) =~= GETACL_SP@);
            crate::chars::lemma_keyword_at(s, i, GETACL_SP@);
            crate::chars::lemma_not_keyword(s, i, SETACL_SP@, 0);
            crate::chars::lemma_not_keyword(s, i, DELETEACL_SP@, 0);
            let x = w.subrange(7, w.len() as int);
            crate::chars::lemma_part(s, i, w, 7, x.len() as int);
            assert(x =~= crate::mailbox::spec_write_mailbox(mailbox));
            crate::mailbox::lemma_mailbox_round_trip(mailbox, s, i + 7);
        },
        _ => {},
    }
}

proof fn lemma_list_rights_round_trip(b: CommandBodyV, s: Seq<u8>, i: int)
    requires
        writable_acl_body(b),
        b is ListRights,
        0 <= i,
        i + crate::command::spec_write_command_body(b).len() < s.len(),
        s.subrange(i, i + crate::command::spec_write_command_body(b).len()) == crate::command::spec_write_command_body(b),
        !crate::chars::is_astring_char(s[i + crate::command::spec_write_command_body(b).len()]),
    ensures
        spec_acl_command(s, i) == Some((b, i + crate::command::spec_write_command_body(b).len())),
{
    let w = crate::command::spec_write_command_body(b);
    match b {
        CommandBodyV::ListRights { mailbox, identifier } => {
            crate::chars::lemma_part(s, i, w, 0, 11);
            assert(w.subrange(0, 11) =~= LISTRIGHTS_SP@);
            crate::chars::lemma_keyword_at(s, i, LISTRIGHTS_SP@);
            crate::chars::lemma_not_keyword(s, i, SETACL_SP@, 0);
            crate::chars::lemma_not_keyword(s, i, DELETEACL_SP@, 0);
            crate::chars::lemma_not_keyword(s, i, GETACL_SP@, 0);
            let x = w.subrange(11, w.len() as int);
            crate::chars::lemma_part(s, i, w, 11, x.len() as int);
            assert(x =~= crate::mailbox::spec_write_mailbox(mailbox) + seq![SP] + crate::strings::spec_write_str(identifier));
            lemma_mailbox_astring_round_trip(mailbox, identifier, s, i + 11);
        },
        _ => {},
    }
}

proof fn lemma_my_rights_round_trip(b: CommandBodyV, s: Seq<u8>, i: int)
    requires
        writable_acl_body(b),
        b is MyRights,
        0 <= i,
        i + crate::command::spec_write_command_body(b).len() < s.len(),
        s.subrange(i, i + crate::command::spec_write_command_body(b).len()) == crate::command::spec_write_command_body(b),
        !crate::chars::is_astring_char(s[i + crate::command::spec_write_command_body(b).len()]),
    ensures
        spec_acl_command(s, i) == Some((b, i + crate::command::spec_write_command_body(b).len())),
{
    let w = crate::command::spec_write_command_body(b);
    match b {
        CommandBodyV::MyRights { mailbox } => {
            crate::chars::lemma_part(s, i, w, 0, 9);
            assert(w.subrange(0, 9) =~= MYRIGHTS_SP@);
            crate::chars::lemma_keyword_at(s, i, MYRIGHTS_SP@);
            crate::chars::lemma_not_keyword(s, i, SETACL_SP@, 0);
            crate::chars::lemma_not_keyword(s, i, DELETEACL_SP@, 0);
            crate::chars::lemma_not_keyword(s, i, GETACL_SP@, 0);
            crate::chars::lemma_not_keyword(s, i, LISTRIGHTS_SP@, 0);
            let x = w.subrange(9, w.len() as int);
            crate::chars::lemma_part(s, i, w, 9, x.len() as int);
            assert(x =~= crate::mailbox::spec_write_mailbox(mailbox));
            crate::mailbox::lemma_mailbox_round_trip(mailbox, s, i + 9);
        },
        _ => {},
    }
}

/// One of the five commands, written at `i` and followed by a byte that
/// cannot continue an atom, reads back as itself.
pub proof fn lemma_acl_command_round_trip(b: CommandBodyV, s: Seq<u8>, i: int)
    requires
        writable_acl_body(b),
        0 <= i,
        i + crate::command::spec_write_command_body(b).len() < s.len(),
        s.subrange(i, i + crate::command::spec_write_command_body(b).len()) == crate::command::spec_write_command_body(b),
        !crate::chars::is_astring_char(s[i + crate::command::spec_write_command_body(b).len()]),
    ensures
        spec_acl_command(s, i) == Some((b, i + crate::command::spec_write_command_body(b).len())),
{
    match b {
        CommandBodyV::SetAcl { .. } => lemma_set_acl_round_trip(b, s, i),
        CommandBodyV::DeleteAcl { .. } => lemma_delete_acl_round_trip(b, s, i),
        CommandBodyV::GetAcl { .. } => lemma_get_acl_round_trip(b, s, i),
        CommandBodyV::ListRights { .. } => lemma_list_rights_round_trip(b, s, i),
        CommandBodyV::MyRights { .. } => lemma_my_rights_round_trip(b, s, i),
        _ => {},
    }
}

} // verus!

verus! {

// ---------------------------------------------------------------------
// Which string of `SETACL` is which.

/// `SETACL` is written as the word, a space, the mailbox, a space, the
/// identifier, a space and the rights.
pub proof fn lemma_setacl_written(m: MailboxV, id: StrV, r: StrV)
    ensures
        crate::command::spec_write_command_body(CommandBodyV::SetAcl { mailbox: m, identifier: id, rights: r })
            == seq![83u8, 69, 84, 65, 67, 76, 32] + crate::mailbox::spec_write_mailbox(m) + seq![SP]
            + crate::strings::spec_write_str(id) + seq![SP] + crate::strings::spec_write_str(r),
{
    assert(SETACL_SP@ =~= seq![83u8, 69, 84, 65, 67, 76, 32]);
}

/// `SETACL`, in any case, a space, a mailbox, a space and two strings
/// separated by a space read as that mailbox, the first string as the
/// identifier and the second as the rights.
pub proof fn lemma_setacl_read(s: Seq<u8>, i: int, m: MailboxV, j: int, a: StrV, k: int, b: StrV, l: int)
    requires
        spec_keyword(s, i, seq![83u8, 69, 84, 65, 67, 76, 32]),
        spec_mailbox(s, i + 7) == Some((m, j)),
        0 <= j < s.len(),
        s[j] == SP,
        spec_astring(s, j + 1) == Some((a, k)),
        0 <= k < s.len(),
        s[k] == SP,
        spec_astring(s, k + 1) == Some((b, l)),
    ensures
        spec_acl_command(s, i) == Some((CommandBodyV::SetAcl { mailbox: m, identifier: a, rights: b }, l)),
{
    assert(SETACL_SP@ =~= seq![83u8, 69, 84, 65, 67, 76, 32]);
}

} // verus!
