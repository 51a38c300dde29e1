use imap_codec::command::{CommandBody, CommandCodec};
use imap_codec::objectid::ObjectId;
use imap_codec::response::{Response, ResponseCodec};

fn round_trip_command(line: &[u8]) -> CommandBody {
    let (rest, command) = CommandCodec::default()
        .decode(line)
        .unwrap_or_else(|e| panic!("{}: {e:?}", String::from_utf8_lossy(line)));
    assert!(rest.is_empty());
    assert_eq!(command.encode(), line, "{}", String::from_utf8_lossy(line));
    command.body
}

fn round_trip_response(line: &[u8]) -> Response {
    let (rest, response) = ResponseCodec::default()
        .decode(line)
        .unwrap_or_else(|e| panic!("{}: {e:?}", String::from_utf8_lossy(line)));
    assert!(rest.is_empty());
    assert_eq!(response.encode(), line, "{}", String::from_utf8_lossy(line));
    response
}

/// RFC 8474 Section 7's examples, read and written back byte for byte.
#[test]
fn test_objectid_round_trips() {
    round_trip_command(b"3 FETCH 1:* (EMAILID THREADID)\r\n");
    round_trip_command(b"27 SEARCH EMAILID M6d99ac3275bb4e THREADID T64b478a75b7ea9\r\n");
    round_trip_command(b"3 STATUS foo (MAILBOXID)\r\n");
    round_trip_response(b"* 1 FETCH (EMAILID (M6d99ac3275bb4e) THREADID (T64b478a75b7ea9))\r\n");
    round_trip_response(b"* 2 FETCH (EMAILID (M5fdc09b49ea703) THREADID NIL)\r\n");
    round_trip_response(b"* STATUS foo (MAILBOXID (F2212ea87-6097-4256-9d51-71338625))\r\n");
    round_trip_response(b"3 OK [MAILBOXID (F2212ea87-6097-4256-9d51-71338625)] Completed\r\n");
    round_trip_response(b"* OK [MAILBOXID (F2212ea87-6097-4256-9d51-71338625)] Ok\r\n");
}

#[test]
fn test_objectid_refusals() {
    for line in [&b"3 SEARCH EMAILID M.1\r\n"[..], b"3 FETCH 1 (EMAILIDS)\r\n"] {
        assert!(
            CommandCodec::default().decode(line).is_err(),
            "{} should not parse",
            String::from_utf8_lossy(line)
        );
    }
    assert!(
        ResponseCodec::default()
            .decode(b"* 1 FETCH (EMAILID M1)\r\n")
            .is_err(),
        "the parentheses are the rule's"
    );
}

/// RFC 8970 Section 3's commands and answers.
#[test]
fn test_preview_round_trips() {
    // One item is written without its parentheses, as for any item.
    round_trip_command(b"A1 FETCH 1 PREVIEW\r\n");
    round_trip_command(b"A4 FETCH 1 PREVIEW (LAZY)\r\n");
    round_trip_command(b"A2 FETCH 1:3 (UID PREVIEW (LAZY))\r\n");
    round_trip_response(b"* 1 FETCH (PREVIEW \"Hello, this is a preview\")\r\n");
    round_trip_response(b"* 2 FETCH (UID 4 PREVIEW NIL)\r\n");
    round_trip_response(b"* 3 FETCH (PREVIEW \"\")\r\n");
    assert!(
        CommandCodec::default()
            .decode(b"A3 FETCH 1 (PREVIEW (FAST))\r\n")
            .is_err(),
        "LAZY is the only modifier"
    );
}

/// RFC 8437 Section 2.
#[test]
fn test_unauthenticate_round_trips() {
    assert_eq!(
        round_trip_command(b"A UNAUTHENTICATE\r\n"),
        CommandBody::unauthenticate()
    );
}

#[test]
fn test_objectid_validation() {
    assert!(ObjectId::try_from("F2212ea87-6097-4256-9d51-71338625").is_ok());
    assert!(ObjectId::try_from("T_1").is_ok());
    assert!(ObjectId::try_from("").is_err());
    assert!(ObjectId::try_from("a b").is_err());
    assert!(ObjectId::try_from("a.b").is_err());
    assert!(ObjectId::try_from("a".repeat(255).as_str()).is_ok());
    assert!(ObjectId::try_from("a".repeat(256).as_str()).is_err());
}

#[test]
fn test_objectid_from_owned_string() {
    let id = ObjectId::try_from(String::from("M6d99ac3275bb4e")).unwrap();
    assert_eq!(id.inner(), b"M6d99ac3275bb4e");
    assert!(ObjectId::try_from(String::new()).is_err());
    assert!(ObjectId::try_from(String::from("a b")).is_err());
    assert!(ObjectId::try_from("a".repeat(256)).is_err());
}
