use imap_codec::command::{CommandBody, CommandCodec};
use imap_codec::response::{Response, ResponseCodec};

fn round_trip_command(line: &[u8]) -> CommandBody {
    let (rest, command) = CommandCodec::default()
        .decode(line)
        .unwrap_or_else(|e| panic!("{}: {e:?}", String::from_utf8_lossy(line)));
    assert!(rest.is_empty());
    assert_eq!(command.encode(), line, "{}", String::from_utf8_lossy(line));
    command.body
}

fn round_trip_response(line: &[u8]) -> Response {
    let (rest, response) = ResponseCodec::default()
        .decode(line)
        .unwrap_or_else(|e| panic!("{}: {e:?}", String::from_utf8_lossy(line)));
    assert!(rest.is_empty());
    assert_eq!(response.encode(), line, "{}", String::from_utf8_lossy(line));
    response
}

/// RFC 4314 Section 3's examples, read and written back byte for byte.
#[test]
fn test_acl_round_trips() {
    let body = round_trip_command(b"A001 SETACL INBOX/Drafts John lrswicda\r\n");
    assert!(matches!(body, CommandBody::SetAcl { .. }));
    round_trip_command(b"A002 SETACL INBOX Fred +k\r\n");
    round_trip_command(b"A003 SETACL \"Saved mail\" \"Jane Doe\" -wt\r\n");
    round_trip_command(b"A004 SETACL INBOX Fred \"\"\r\n");
    let body = round_trip_command(b"A005 DELETEACL INBOX Fred\r\n");
    assert!(matches!(body, CommandBody::DeleteAcl { .. }));
    let body = round_trip_command(b"A006 GETACL INBOX\r\n");
    assert!(matches!(body, CommandBody::GetAcl { .. }));
    let body = round_trip_command(b"A007 LISTRIGHTS ~/Mail/saved smith\r\n");
    assert!(matches!(body, CommandBody::ListRights { .. }));
    let body = round_trip_command(b"A008 MYRIGHTS INBOX\r\n");
    assert!(matches!(body, CommandBody::MyRights { .. }));

    round_trip_response(b"* ACL INBOX Fred rwipslxetad -Fred wetd $team w\r\n");
    round_trip_response(b"* ACL Archive\r\n");
    round_trip_response(b"* LISTRIGHTS ~/Mail/saved smith la r swicdkxte\r\n");
    round_trip_response(b"* LISTRIGHTS INBOX \"a b\" \"\"\r\n");
    round_trip_response(b"* MYRIGHTS INBOX rwiptsldaex\r\n");
    round_trip_response(b"* CAPABILITY IMAP4REV1 ACL RIGHTS=texk\r\n");
}

#[test]
fn test_acl_refusals() {
    for line in [
        &b"A1 SETACL INBOX Fred\r\n"[..],
        b"A1 DELETEACL INBOX\r\n",
        b"A1 GETACL\r\n",
        b"A1 LISTRIGHTS INBOX\r\n",
        b"A1 MYRIGHTS INBOX Fred\r\n",
    ] {
        assert!(
            CommandCodec::default().decode(line).is_err(),
            "{} should not parse",
            String::from_utf8_lossy(line)
        );
    }
    for line in [
        &b"* ACL INBOX Fred\r\n"[..],
        b"* LISTRIGHTS INBOX smith\r\n",
        b"* MYRIGHTS INBOX\r\n",
    ] {
        assert!(
            ResponseCodec::default().decode(line).is_err(),
            "{} should not parse",
            String::from_utf8_lossy(line)
        );
    }
}
