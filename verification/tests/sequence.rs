use imap_codec::command::CommandCodec;
use imap_codec::num::NzNumber;
use imap_codec::response::ResponseCodec;
use imap_codec::sequence::{
    read_seq_number, read_seq_range, read_sequence_set, read_sequence_set_or_saved, write_sequence, SeqOrUid, Sequence,
    SequenceSetOrSaved,
};

/// RFC 5182 Section 2's examples, and `$` everywhere RFC 9051 lets a
/// command name messages, each read and written back unchanged.
#[test]
fn test_searchres_commands_read_and_write_back() {
    for line in [
        // The date as the encoder writes it; RFC 5182's `1-Feb-1994` reads the same.
        &b"A282 SEARCH RETURN (SAVE) FLAGGED SINCE \"01-Feb-1994\" NOT FROM \"Smith\"\r\n"[..],
        b"A283 FETCH $ (UID INTERNALDATE FLAGS RFC822.SIZE)\r\n",
        b"A284 UID SEARCH RETURN (MIN MAX SAVE) UNSEEN\r\n",
        b"A285 UID STORE $ +FLAGS (\\Seen)\r\n",
        b"A286 UID COPY $ Trash\r\n",
        b"A287 MOVE $ Trash\r\n",
        b"A288 UID EXPUNGE $\r\n",
        b"A289 UID SEARCH UID $ SMALLER 4096\r\n",
        b"A290 SEARCH $ NOT DELETED\r\n",
    ] {
        let (rest, command) = CommandCodec::default().decode(line).unwrap_or_else(|e| {
            panic!("{} does not parse: {e:?}", String::from_utf8_lossy(line))
        });
        assert!(rest.is_empty());
        assert_eq!(command.encode(), line, "{}", String::from_utf8_lossy(line));
    }
}

/// `$` is a whole sequence set, never an element of one.
#[test]
fn test_saved_is_the_whole_set() {
    assert_eq!(
        read_sequence_set_or_saved(b"$ ", 0).unwrap().0,
        SequenceSetOrSaved::Saved
    );
    for line in [
        &b"A FETCH 1,$ (FLAGS)\r\n"[..],
        b"A FETCH $,1 (FLAGS)\r\n",
        b"A FETCH $:3 (FLAGS)\r\n",
        b"A COPY 1:$ Trash\r\n",
    ] {
        assert!(
            CommandCodec::default().decode(line).is_err(),
            "{} should not parse",
            String::from_utf8_lossy(line)
        );
    }
    assert_eq!(
        SequenceSetOrSaved::try_from_str("$").unwrap(),
        SequenceSetOrSaved::Saved
    );
    assert!(matches!(
        SequenceSetOrSaved::try_from_str("1:*").unwrap(),
        SequenceSetOrSaved::Sequences(_)
    ));
    assert!(SequenceSetOrSaved::try_from_str("1:*,").is_none());
    assert!(SequenceSetOrSaved::try_from_str("$1").is_none());
}

#[test]
fn test_notsaved_code_reads_and_writes_back() {
    let line: &[u8] = b"A284 OK [NOTSAVED] Search done, result not saved\r\n";
    let (_, response) = ResponseCodec::default().decode(line).unwrap();
    assert_eq!(response.encode(), line);
}

#[test]
fn test_encode_of_some_sequence_sets() {
    let tests = [
        (
            Sequence::Single(SeqOrUid::Value(NzNumber::try_from(1).unwrap())),
            b"1".as_ref(),
        ),
        (Sequence::Single(SeqOrUid::Asterisk), b"*".as_ref()),
        (
            Sequence::Range(SeqOrUid::Value(NzNumber::try_from(1).unwrap()), SeqOrUid::Asterisk),
            b"1:*".as_ref(),
        ),
    ];

    for (test, expected) in tests {
        let mut out = Vec::new();
        write_sequence(&mut out, &test);
        assert_eq!(*expected, out);
    }
}

#[test]
fn test_parse_sequence_set() {
    let (val, rem) = read_sequence_set(b"1:*?", 0).unwrap();
    println!("{rem:?}, {val:?}");

    let (val, rem) = read_sequence_set(b"1:*,5?", 0).unwrap();
    println!("{rem:?}, {val:?}");
}

#[test]
fn test_parse_seq_number() {
    // Must not be 0.
    assert!(read_seq_number(b"0?", 0).is_none());

    let (val, rem) = read_seq_number(b"1?", 0).unwrap();
    println!("{rem:?}, {val:?}");

    let (val, rem) = read_seq_number(b"*?", 0).unwrap();
    println!("{rem:?}, {val:?}");
}

#[test]
fn test_parse_seq_range() {
    // Must not be 0.
    assert!(read_seq_range(b"0:1?", 0).is_none());

    assert_eq!(
        (
            SeqOrUid::Value(NzNumber::try_from(1).unwrap()),
            SeqOrUid::Value(NzNumber::try_from(2).unwrap())
        ),
        read_seq_range(b"1:2?", 0).unwrap().0
    );
    assert_eq!(
        (SeqOrUid::Value(NzNumber::try_from(1).unwrap()), SeqOrUid::Asterisk),
        read_seq_range(b"1:*?", 0).unwrap().0
    );
    assert_eq!(
        (SeqOrUid::Asterisk, SeqOrUid::Value(NzNumber::try_from(10).unwrap())),
        read_seq_range(b"*:10?", 0).unwrap().0
    );
}
