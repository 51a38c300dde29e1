use imap_codec::command::{CommandBody, CommandCodec};
use imap_codec::response::{Data, Response, ResponseCodec};
use imap_codec::urlauth::{UrlFetchValue, UrlMetadata};

fn round_trip_command(line: &[u8]) -> CommandBody {
    let (rest, command) = CommandCodec::default()
        .decode(line)
        .unwrap_or_else(|e| panic!("{}: {e:?}", String::from_utf8_lossy(line)));
    assert!(rest.is_empty());
    assert_eq!(command.encode(), line, "{}", String::from_utf8_lossy(line));
    command.body
}

fn round_trip_response(line: &[u8]) -> Response {
    let (rest, response) = ResponseCodec::default()
        .decode(line)
        .unwrap_or_else(|e| panic!("{}: {e:?}", String::from_utf8_lossy(line)));
    assert!(rest.is_empty());
    assert_eq!(response.encode(), line, "{}", String::from_utf8_lossy(line));
    response
}

/// RFC 4467's examples, read and written back byte for byte.
#[test]
fn test_urlauth_round_trips() {
    let body = round_trip_command(
        b"a GENURLAUTH \"imap://joe@example.com/INBOX/;uid=20/;section=1.2;urlauth=submit+fred\" INTERNAL\r\n",
    );
    assert!(matches!(body, CommandBody::GenUrlAuth { urls } if urls.as_slice().len() == 1));
    round_trip_command(
        b"b GENURLAUTH \"imap://joe@example.com/INBOX/;uid=20;urlauth=anonymous\" INTERNAL \"imap://joe@example.com/Drafts/;uid=3;urlauth=authuser\" INTERNAL\r\n",
    );
    let body = round_trip_command(b"c RESETKEY\r\n");
    assert!(matches!(body, CommandBody::ResetKey { mailbox: None, .. }));
    round_trip_command(b"d RESETKEY INBOX\r\n");
    round_trip_command(b"e RESETKEY Drafts INTERNAL\r\n");
    round_trip_command(
        b"f URLFETCH \"imap://joe@example.com/INBOX/;uid=20/;section=1.2;urlauth=submit+fred:internal:91354a473744909de610943775f92038\"\r\n",
    );
    let body = round_trip_command(b"g URLFETCH (\"imap://a@b/INBOX/;uid=1;urlauth=authuser:internal:00\" BINARY BODYPARTSTRUCTURE) \"imap://a@b/INBOX/;uid=2;urlauth=authuser:internal:00\"\r\n");
    let CommandBody::UrlFetch { urls } = body else {
        panic!("not a URLFETCH");
    };
    assert_eq!(urls.as_slice()[0].params.as_ref().map(Vec::len), Some(2));
    assert_eq!(urls.as_slice()[1].params, None);
    round_trip_command(
        b"h URLFETCH (\"imap://a@b/INBOX/;uid=1;urlauth=authuser:internal:00\")\r\n",
    );

    round_trip_response(
        b"* GENURLAUTH \"imap://joe@example.com/INBOX/;uid=20/;section=1.2;urlauth=submit+fred:internal:91354a473744909de610943775f92038\"\r\n",
    );
    round_trip_response(b"* URLFETCH \"imap://a@b/INBOX/;uid=1;urlauth=anonymous:internal:00\" {5}\r\nhello\r\n");
    round_trip_response(b"* URLFETCH \"imap://a@b/INBOX/;uid=1;urlauth=anonymous:internal:00\" NIL \"imap://a@b/INBOX/;uid=2;urlauth=anonymous:internal:00\" \"hi\"\r\n");
    let response = round_trip_response(
        b"* URLFETCH \"imap://a@b/INBOX/;uid=1/;section=1.1;urlauth=authuser:internal:00\" (BODYPARTSTRUCTURE (\"TEXT\" \"plain\" (\"charset\" \"us-ascii\") NIL NIL \"7bit\" 11 0 NIL NIL NIL NIL)) (BINARY ~{11}\r\nhello world)\r\n",
    );
    let Response::Data(Data::UrlFetch { items }) = response else {
        panic!("not a URLFETCH");
    };
    let UrlFetchValue::Metadata(metadata) = &items.as_slice()[0].value else {
        panic!("not metadata");
    };
    assert!(matches!(metadata[0], UrlMetadata::BodyPartStructure(_)));
    assert!(matches!(metadata[1], UrlMetadata::Binary(_)));
    round_trip_response(b"* URLFETCH \"imap://a@b/INBOX/;uid=1;urlauth=authuser:internal:00\" (BODY \"x\") (BINARY NIL)\r\n");
    round_trip_response(b"* CAPABILITY IMAP4REV1 URLAUTH URLAUTH=BINARY\r\n");
    round_trip_response(b"* OK [URLMECH INTERNAL] Ok\r\n");
    round_trip_response(b"a33 OK [URLMECH INTERNAL XSAMPLE=P34OKhO7VEkCbsiYY8rGEg==] done\r\n");
    round_trip_response(b"a34 OK [URLMECH INTERNAL X-ONE X.TWO=] done\r\n");
}

#[test]
fn test_urlauth_refusals() {
    for line in [
        &b"a GENURLAUTH\r\n"[..],
        b"a GENURLAUTH \"imap://a@b/INBOX/;uid=1;urlauth=anonymous\"\r\n",
        b"a URLFETCH\r\n",
        b"a URLFETCH (\"imap://a@b/INBOX/;uid=1\" BINARY\r\n",
    ] {
        assert!(
            CommandCodec::default().decode(line).is_err(),
            "{} should not parse",
            String::from_utf8_lossy(line)
        );
    }
    for line in [
        &b"* GENURLAUTH\r\n"[..],
        b"* URLFETCH \"imap://a@b/INBOX/;uid=1\"\r\n",
        b"* URLFETCH \"imap://a@b/INBOX/;uid=1\" (SIZE 3)\r\n",
    ] {
        assert!(
            ResponseCodec::default().decode(line).is_err(),
            "{} should not parse",
            String::from_utf8_lossy(line)
        );
    }
}
