use imap_codec::command::{Command, CommandBody, CommandCodec};
use imap_codec::mailbox::{
    read_mailbox, ListExtendedItem, ListPatterns, ListReturnOption, ListSelectOption, Mailbox, MailboxOther,
};
use imap_codec::response::{Data, Response, ResponseCodec};
use imap_codec::status::StatusDataItemName;
use imap_codec::strings::{AString, IString, Literal};
use imap_codec::vec1::Vec1;

fn command(bytes: &[u8]) -> Option<CommandBody> {
    CommandCodec::default()
        .decode(bytes)
        .ok()
        .map(|(_, command): (&[u8], Command)| command.body)
}

/// RFC 5258 Section 5's examples, each read and written back as it was.
#[test]
fn test_list_extended_commands_read_and_write_back() {
    for line in [
        &b"A01 LIST (SUBSCRIBED) \"\" \"*\" RETURN (CHILDREN)\r\n"[..],
        b"A02 LIST (SUBSCRIBED RECURSIVEMATCH) \"\" \"%\"\r\n",
        b"A03 LIST \"\" (\"foo\" \"bar/%\") RETURN (SUBSCRIBED CHILDREN)\r\n",
        b"A04 LIST (REMOTE) \"\" %\r\n",
        b"A05 LIST () \"\" %\r\n",
        b"A06 LIST \"\" % RETURN ()\r\n",
        b"A07 LIST \"\" % RETURN (STATUS (MESSAGES UNSEEN))\r\n",
        b"A08 LIST (SPECIAL-USE) \"\" * RETURN (SPECIAL-USE)\r\n",
        b"A09 LIST \"\" %\r\n",
    ] {
        let (_, parsed) = CommandCodec::default().decode(line).unwrap();
        assert_eq!(parsed.encode(), line, "{}", String::from_utf8_lossy(line));
    }
}

#[test]
fn test_list_extended_command_shapes() {
    let Some(CommandBody::List {
        selection_options,
        patterns,
        return_options,
        ..
    }) = command(b"A LIST (remote subscribed) \"\" (foo \"bar\") return (status (messages size) children)\r\n")
    else {
        panic!("not a LIST");
    };
    assert_eq!(
        selection_options,
        Some(vec![ListSelectOption::Remote, ListSelectOption::Subscribed]),
        "any order, any case"
    );
    assert_eq!(patterns.as_slice().len(), 2);
    assert!(matches!(patterns, ListPatterns::Several(_)));
    assert_eq!(
        return_options,
        Some(vec![
            ListReturnOption::Status(
                Vec1::from_vec(vec![StatusDataItemName::Messages, StatusDataItemName::Size]).unwrap()
            ),
            ListReturnOption::Children,
        ])
    );

    // One pattern in parentheses is extended, and not the bare pattern.
    let Some(CommandBody::List { patterns, .. }) = command(b"A LIST \"\" (\"\")\r\n") else {
        panic!("not a LIST");
    };
    assert!(matches!(patterns, ListPatterns::Several(_)));
    let Some(CommandBody::List {
        selection_options,
        patterns,
        return_options,
        ..
    }) = command(b"A LIST \"\" \"\"\r\n")
    else {
        panic!("not a LIST");
    };
    assert!(matches!(patterns, ListPatterns::One(_)));
    assert_eq!((selection_options, return_options), (None, None));
}

/// RFC 5258 Section 3: an option the server does not know, and a
/// modifier with nothing to modify, are `BAD`, which a command that does
/// not parse is.
#[test]
fn test_list_extended_refusals() {
    for line in [
        &b"A LIST (IMAPTEST) \"\" \"\"\r\n"[..],
        b"A LIST (RECURSIVEMATCH) \"\" \"\"\r\n",
        b"A LIST (RECURSIVEMATCH REMOTE) \"\" \"\"\r\n",
        b"A LIST \"\" \"\" RETURN (IMAPTEST)\r\n",
        b"A LIST \"\" ()\r\n",
        b"A LIST \"\" % RETURN (STATUS ())\r\n",
    ] {
        assert!(
            command(line).is_none(),
            "{} should not parse",
            String::from_utf8_lossy(line)
        );
    }
}

#[test]
fn test_list_extended_responses() {
    let childinfo: &[u8] = b"* LIST () \"/\" \"Foo\" (\"CHILDINFO\" (\"SUBSCRIBED\"))\r\n";
    let (_, response) = ResponseCodec::default().decode(childinfo).unwrap();
    let Response::Data(Data::List { extended, .. }) = &response else {
        panic!("not a LIST response");
    };
    assert_eq!(
        extended,
        &vec![ListExtendedItem::ChildInfo(Vec1::from_one(ListSelectOption::Subscribed))]
    );
    assert_eq!(response.encode(), childinfo, "written as RFC 5258 writes it");

    // Unquoted and in lower case, as Dovecot's ImapTest spells it.
    let (_, bare) = ResponseCodec::default()
        .decode(b"* LIST () \"/\" Foo (childinfo (subscribed))\r\n")
        .unwrap();
    assert!(matches!(bare, Response::Data(Data::List { ref extended, .. }) if extended.len() == 1));

    let oldname: &[u8] = b"* LIST () \"/\" \"New\" (\"OLDNAME\" (\"Old\"))\r\n";
    let (_, response) = ResponseCodec::default().decode(oldname).unwrap();
    assert_eq!(response.encode(), oldname);

    // No extended data is no extended data, and is written as none.
    let plain: &[u8] = b"* LIST (\\HasNoChildren) \"/\" \"Foo\"\r\n";
    let (_, response) = ResponseCodec::default().decode(plain).unwrap();
    assert_eq!(response.encode(), plain);
}

#[test]
fn test_mailbox() {
    assert!(read_mailbox(b"\"iNbOx\"", 0).is_some());
    assert!(read_mailbox(b"{3}\r\naaa\r\n", 0).is_some());
    assert!(read_mailbox(b"inbox ", 0).is_some());
    assert!(read_mailbox(b"inbox.sent ", 0).is_some());
    assert!(read_mailbox(b"aaa", 0).is_none());
}

#[test]
fn test_conversion_mailbox() {
    let tests = [
        ("inbox", Mailbox::Inbox),
        ("inboX", Mailbox::Inbox),
        ("Inbox", Mailbox::Inbox),
        ("InboX", Mailbox::Inbox),
        ("INBOX", Mailbox::Inbox),
        (
            "INBO²",
            Mailbox::Other(MailboxOther::unvalidated(AString::String(IString::Literal(
                Literal::try_from_bytes("INBO²".as_bytes()).unwrap(),
            )))),
        ),
    ];

    for (test, expected) in tests {
        let got = Mailbox::try_from_str(test).unwrap();
        assert_eq!(expected, got);

        let got = Mailbox::try_from_str(&String::from(test)).unwrap();
        assert_eq!(expected, got);
    }
}

#[test]
fn test_conversion_mailbox_failing() {
    let tests = ["\x00", "A\x00", "\x00A"];

    for test in tests {
        assert!(Mailbox::try_from_str(test).is_err());
        assert!(Mailbox::try_from_str(&String::from(test)).is_err());
    }
}
