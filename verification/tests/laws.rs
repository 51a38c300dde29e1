use imap_codec::command::{CommandBody, CommandCodec};
use imap_codec::mailbox::{ListCharString, ListSelectOption, Mailbox, MailboxOther, MailboxOtherError};
use imap_codec::num::NzNumber;
use imap_codec::response::ResponseCodec;
use imap_codec::search::read_search_key;
use imap_codec::search_return::{read_partial_range, PartialRange};
use imap_codec::strings::AString;
use imap_codec::uidplus::{read_uid_set, write_uid_set, UidElement, UidSet};

fn nz(n: u32) -> NzNumber {
    NzNumber::new(n).unwrap()
}

fn nzs(ns: &[u32]) -> Vec<NzNumber> {
    ns.iter().map(|n| nz(*n)).collect()
}

fn read_back_command(line: &[u8]) -> CommandBody {
    let (rest, command) = CommandCodec::default()
        .decode(line)
        .unwrap_or_else(|e| panic!("{} does not parse: {e:?}", String::from_utf8_lossy(line)));
    assert!(rest.is_empty());
    assert_eq!(command.encode(), line, "{}", String::from_utf8_lossy(line));
    command.body
}

fn read_back_response(line: &[u8]) {
    let (rest, response) = ResponseCodec::default()
        .decode(line)
        .unwrap_or_else(|e| panic!("{} does not parse: {e:?}", String::from_utf8_lossy(line)));
    assert!(rest.is_empty());
    assert_eq!(response.encode(), line, "{}", String::from_utf8_lossy(line));
}

#[test]
fn test_zero_is_no_nz_number() {
    assert!(NzNumber::new(0).is_none());
    assert_eq!(NzNumber::new(1).unwrap().get(), 1);
    assert_eq!(NzNumber::new(u32::MAX).unwrap().get(), u32::MAX);
}

#[test]
fn test_collapsed_folds_adjacent_ascending_runs() {
    assert!(UidSet::collapsed(&[]).is_none());

    let set = UidSet::collapsed(&nzs(&[1, 2, 3, 5, 7, 8, 4])).unwrap();
    assert_eq!(
        set.0.as_slice(),
        &[
            UidElement::Range(nz(1), nz(3)),
            UidElement::Single(nz(5)),
            UidElement::Range(nz(7), nz(8)),
            UidElement::Single(nz(4)),
        ]
    );
    let mut out = Vec::new();
    write_uid_set(&mut out, &set);
    assert_eq!(out, b"1:3,5,7:8,4");

    // The order given is kept: a descending run is not folded.
    let set = UidSet::collapsed(&nzs(&[3, 2, 1])).unwrap();
    assert_eq!(
        set.0.as_slice(),
        &[UidElement::Single(nz(3)), UidElement::Single(nz(2)), UidElement::Single(nz(1))]
    );

    // Nothing follows the largest UID.
    let set = UidSet::collapsed(&nzs(&[u32::MAX, 1])).unwrap();
    assert_eq!(set.0.as_slice(), &[UidElement::Single(nz(u32::MAX)), UidElement::Single(nz(1))]);
}

#[test]
fn test_uid_set_reads_back() {
    let set = UidSet::collapsed(&nzs(&[10, 11, 12, 20])).unwrap();
    let mut out = Vec::new();
    write_uid_set(&mut out, &set);
    out.push(b' ');
    let (read, j) = read_uid_set(&out, 0).unwrap();
    assert_eq!(read, set);
    assert_eq!(j, out.len() - 1);
}

#[test]
fn test_partial_range_orders_its_ends() {
    let r = PartialRange::new(nz(9), nz(3));
    assert_eq!((r.from.get(), r.to.get()), (3, 9));
    assert_eq!(r.count(), 7);
    let r = PartialRange::new(nz(4), nz(4));
    assert_eq!(r.count(), 1);

    let (r, j) = read_partial_range(b"5:1 ", 0).unwrap();
    assert_eq!((r.from.get(), r.to.get(), j), (1, 5, 3));
    assert!(read_partial_range(b"0:1", 0).is_none());
}

#[test]
fn test_list_select_option_combinations() {
    assert!(ListSelectOption::valid_combination(&[]));
    assert!(ListSelectOption::valid_combination(&[ListSelectOption::Subscribed]));
    assert!(ListSelectOption::valid_combination(&[ListSelectOption::Remote]));
    assert!(ListSelectOption::valid_combination(&[ListSelectOption::Subscribed, ListSelectOption::RecursiveMatch]));
    assert!(ListSelectOption::valid_combination(&[ListSelectOption::RecursiveMatch, ListSelectOption::Subscribed]));
    assert!(!ListSelectOption::valid_combination(&[ListSelectOption::RecursiveMatch]));
    assert!(!ListSelectOption::valid_combination(&[ListSelectOption::RecursiveMatch, ListSelectOption::Remote]));
    assert!(ListSelectOption::Subscribed.is_base());
    assert!(!ListSelectOption::Remote.is_base());
    assert!(ListSelectOption::Remote.is_independent());
    assert!(!ListSelectOption::RecursiveMatch.is_independent());
}

#[test]
fn test_mailbox_other_refuses_the_inbox() {
    assert_eq!(MailboxOther::validate(b"iNbOx"), Err(MailboxOtherError::Reserved));
    assert!(MailboxOther::validate(b"INBOX.Sent").is_ok());
    let inbox = AString::try_from_bytes(b"InBoX").unwrap();
    assert_eq!(MailboxOther::try_from_astring(inbox).unwrap_err(), MailboxOtherError::Reserved);
    let inbox = AString::try_from_bytes(b"InBoX").unwrap();
    assert_eq!(Mailbox::from_astring(inbox), Mailbox::Inbox);
    let other = AString::try_from_bytes(b"Inboxes").unwrap();
    assert!(matches!(Mailbox::from_astring(other), Mailbox::Other(_)));
}

#[test]
fn test_refusals_say_why() {
    assert_eq!(
        MailboxOther::validate(b"inbox").unwrap_err().message(),
        "Reserved: Please use one of the typed variants"
    );
    assert_eq!(
        ListCharString::validate(b"Two Words").unwrap_err().message(),
        "Validation failed: Invalid byte b'\\x20' at index 3"
    );
    assert_eq!(
        ListCharString::validate(b"a\xff").unwrap_err().message(),
        "Validation failed: Invalid byte b'\\xff' at index 1"
    );
    let long = vec![b'a'; 1234];
    assert_eq!(
        ListCharString::validate(&[long.as_slice(), b" "].concat()).unwrap_err().message(),
        "Validation failed: Invalid byte b'\\x20' at index 1234"
    );
}

#[test]
fn test_commands_read_and_write_back() {
    for line in [
        &b"a1 STATUS INBOX (MESSAGES UIDNEXT UIDVALIDITY UNSEEN DELETED SIZE)\r\n"[..],
        b"a2 STATUS \"a b\" (RECENT)\r\n",
        b"a3 COPY 1:3,5 Trash\r\n",
        b"a4 UID COPY 7 Trash\r\n",
        b"a5 MOVE * \"Old mail\"\r\n",
        b"a6 UID MOVE 1:* Trash\r\n",
        b"a7 UID EXPUNGE 3:5\r\n",
        b"a8 LIST \"\" \"*\"\r\n",
        b"a9 UNAUTHENTICATE\r\n",
        b"b1 SETACL INBOX Fred +k\r\n",
        b"b2 GETACL INBOX\r\n",
        b"c1 STORE 1:2 +FLAGS.SILENT (\\Seen foo)\r\n",
        b"c2 UID STORE $ -FLAGS ()\r\n",
        b"c3 STORE 4 FLAGS (\\Deleted)\r\n",
        b"d1 RESETKEY\r\n",
        b"d2 RESETKEY \"a b\" INTERNAL X-OTHER\r\n",
        b"d3 GENURLAUTH \"imap://a@b/INBOX/;uid=1;urlauth=anonymous\" INTERNAL\r\n",
        b"e1 NOTIFY SET STATUS (selected (MessageNew MessageExpunge)) (subtree INBOX NONE)\r\n",
        b"e2 NOTIFY SET (mailboxes (Drafts \"a b\") (FlagChange XFoo)) (personal (MailboxName))\r\n",
        b"e3 NOTIFY NONE\r\n",
        b"f1 URLFETCH (\"imap://a@b/INBOX/;uid=1;urlauth=authuser:internal:00\" BINARY) \"x\"\r\n",
    ] {
        read_back_command(line);
    }
}

#[test]
fn test_status_responses_read_and_write_back() {
    for line in [
        &b"* STATUS INBOX (MESSAGES 17 UNSEEN 3)\r\n"[..],
        b"* STATUS \"a b\" ()\r\n",
        b"a1 OK [UIDNEXT 4392] Predicted next UID\r\n",
        b"* NO [TRYCREATE] No such mailbox\r\n",
        b"* BYE Logging out\r\n",
        b"* 3 EXISTS\r\n",
        b"* 0 RECENT\r\n",
        b"* 2 EXPUNGE\r\n",
        b"* FLAGS (\\Answered \\Seen $Forwarded)\r\n",
        b"* FLAGS ()\r\n",
        b"* SEARCH 2 3 6\r\n",
        b"* SEARCH\r\n",
        b"* SORT 5 3 4\r\n",
        b"* CAPABILITY IMAP4rev1 STARTTLS\r\n",
        b"* LIST (\\Noselect) \"/\" ~/Mail/foo\r\n",
        b"* LSUB () NIL INBOX\r\n",
        b"* ACL INBOX Fred rwipslxetad\r\n",
        b"* MYRIGHTS INBOX rwiptsldaex\r\n",
        b"* LISTRIGHTS ~/Mail/saved smith la r swicdkxte\r\n",
        b"* OK [ALERT] System shutdown in 10 minutes\r\n",
        b"* NO [BADEVENT (MessageNew FlagChange)] Unsupported\r\n",
        b"a2 NO [MAILBOXID (F2212ea87-6097-4256-9d51-71338625)] Ok\r\n",
        b"* BYE [UIDVALIDITY 3857529045] Closing\r\n",
    ] {
        read_back_response(line);
    }
}

#[test]
fn test_search_depth_bounds_nesting() {
    let line: &[u8] = b"NOT (OR ALL SEEN) ";
    // The innermost keys sit three levels down: NOT, the parentheses, OR.
    for depth in 0..4 {
        assert!(read_search_key(line, 0, depth).is_none(), "depth {depth}");
    }
    let (key, end) = read_search_key(line, 0, 4).unwrap();
    assert_eq!(end, 17);
    for depth in 5..12 {
        let (again, end_again) = read_search_key(line, 0, depth).unwrap();
        assert_eq!(again, key);
        assert_eq!(end_again, end);
    }
}

#[test]
fn test_event_group_fetch_attributes_read_back() {
    read_back_command(
        b"n1 NOTIFY SET (selected (MessageNew (BODY[1.2.HEADER] BODY.PEEK[3.MIME]<0.10> BODY[] BODY[4] PREVIEW (LAZY) PREVIEW RFC822.SIZE BODY ENVELOPE) FlagChange))\r\n",
    );
    read_back_command(
        b"n2 NOTIFY SET (inboxes (MessageNew (BODY.PEEK[HEADER.FIELDS.NOT (Received \"X Y\")] BODY[2.TEXT]<5.7> EMAILID THREADID RFC822 UID)))\r\n",
    );
}

#[test]
fn test_fetch_commands_read_and_write_back() {
    for line in [
        &b"f1 FETCH 1:* ALL\r\n"[..],
        b"f2 UID FETCH $ (FLAGS BODY.PEEK[1.2.HEADER.FIELDS (Subject)]<0.512> PREVIEW (LAZY))\r\n",
        b"f3 FETCH 2,4:6 BODY[]\r\n",
        b"f4 UID FETCH 1 FAST\r\n",
        b"f5 FETCH 1 FULL\r\n",
        b"f6 FETCH 1 RFC822\r\n",
        b"f7 FETCH 1 PREVIEW\r\n",
        b"f8 FETCH 7 (BODY[3.MIME] BODY RFC822.HEADER)\r\n",
    ] {
        let body = read_back_command(line);
        assert!(matches!(body, CommandBody::Fetch { .. }));
    }
}

#[test]
fn test_search_commands_read_and_write_back() {
    for line in [
        &b"s1 SEARCH ALL\r\n"[..],
        b"s2 SEARCH CHARSET UTF-8 OR (SEEN UNSEEN) NOT HEADER \"X-A\" \"b c\"\r\n",
        b"s3 UID SEARCH UID 1:3,7 LARGER 100 SENTSINCE \"01-Feb-1994\" UNDRAFT\r\n",
        b"s4 SEARCH RETURN (MIN MAX) 2,4:* KEYWORD foo UNKEYWORD bar SMALLER 9\r\n",
        b"s5 SEARCH (FROM \"Smith\" (TO x CC y)) ON \"09-Jan-2024\" EMAILID M1 THREADID T2\r\n",
    ] {
        read_back_command(line);
    }
}
