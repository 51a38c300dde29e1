use imap_codec::command::{CommandBody, CommandCodec};
use imap_codec::response::{Response, ResponseCodec};

fn round_trip_command(line: &[u8]) -> CommandBody {
    let (rest, command) = CommandCodec::default()
        .decode(line)
        .unwrap_or_else(|e| panic!("{}: {e:?}", String::from_utf8_lossy(line)));
    assert!(rest.is_empty());
    assert_eq!(command.encode(), line, "{}", String::from_utf8_lossy(line));
    command.body
}

fn round_trip_response(line: &[u8]) -> Response {
    let (rest, response) = ResponseCodec::default()
        .decode(line)
        .unwrap_or_else(|e| panic!("{}: {e:?}", String::from_utf8_lossy(line)));
    assert!(rest.is_empty());
    assert_eq!(response.encode(), line, "{}", String::from_utf8_lossy(line));
    response
}

/// RFC 5465's examples and ImapTest's, read and written back.
#[test]
fn test_notify_round_trips() {
    let body = round_trip_command(b"a NOTIFY NONE\r\n");
    assert!(matches!(body, CommandBody::Notify { set: None }));
    round_trip_command(
        b"b NOTIFY SET (selected (MessageNew (UID BODY.PEEK[HEADER.FIELDS (From To)]) MessageExpunge)) (subtree Lists (MessageNew MessageExpunge))\r\n",
    );
    round_trip_command(
        b"c NOTIFY SET STATUS (selected (MessageNew (UID) MessageExpunge FlagChange)) (mailboxes (INBOX Drafts) (MessageNew MessageExpunge))\r\n",
    );
    round_trip_command(b"d NOTIFY SET (personal (MailboxName SubscriptionChange MailboxMetadataChange ServerMetadataChange))\r\n");
    round_trip_command(b"e NOTIFY SET (selected-delayed (MessageNew MessageExpunge FlagChange AnnotationChange)) (inboxes NONE) (subscribed (MessageNew MessageExpunge XFutureEvent))\r\n");
    round_trip_command(
        b"f NOTIFY SET STATUS (mailboxes imaptest2 (MessageNew MessageExpunge FlagChange))\r\n",
    );

    round_trip_response(b"g NO [BADEVENT (MessageNew MessageExpunge FlagChange MailboxName SubscriptionChange)] Unsupported event\r\n");
    round_trip_response(b"* OK [NOTIFICATIONOVERFLOW] Too many\r\n");
    round_trip_response(b"* CAPABILITY IMAP4REV1 NOTIFY\r\n");
}

#[test]
fn test_notify_refusals() {
    for line in [
        &b"a NOTIFY\r\n"[..],
        b"a NOTIFY SET\r\n",
        b"a NOTIFY SET (selected)\r\n",
        b"a NOTIFY SET (mailboxes (MessageNew))\r\n",
        b"a NOTIFY SET (elsewhere (MessageNew MessageExpunge))\r\n",
        b"a NOTIFY SET (selected ())\r\n",
    ] {
        assert!(
            CommandCodec::default().decode(line).is_err(),
            "{} should not parse",
            String::from_utf8_lossy(line)
        );
    }
}
