use imap_codec::command::{read_command_body, CommandBody};
use imap_codec::date::NaiveDate;
use imap_codec::num::NzNumber;
use imap_codec::search::{read_search_key, write_search_key, SearchKey};
use imap_codec::sequence::{SeqOrUid, Sequence, SequenceSet, SequenceSetOrSaved};
use imap_codec::strings::{AString, Atom};
use imap_codec::vec1::Vec1;

fn uid_one(n: u32) -> SearchKey {
    SearchKey::Uid(SequenceSetOrSaved::Sequences(SequenceSet::from_sequence(Sequence::Single(
        SeqOrUid::Value(NzNumber::try_from(n).unwrap()),
    ))))
}

#[test]
fn test_parse_search() {
    let (val, _rem) = read_command_body(b"search (uid 5)???", 0).unwrap();
    assert_eq!(
        val,
        CommandBody::Search {
            return_options: None,
            charset: None,
            criteria: Vec1::from_one(SearchKey::And(Vec1::from_one(uid_one(5)))),
            uid: false,
        }
    );

    let (val, _rem) = read_command_body(b"search (uid 5 or uid 5 (uid 1 uid 2) not uid 5)???", 0).unwrap();
    let expected = CommandBody::Search {
        return_options: None,
        charset: None,
        criteria: Vec1::from_one(SearchKey::And(
            Vec1::from_vec(vec![
                uid_one(5),
                SearchKey::Or(
                    Box::new(uid_one(5)),
                    Box::new(SearchKey::And(Vec1::from_vec(vec![uid_one(1), uid_one(2)]).unwrap())),
                ),
                SearchKey::Not(Box::new(uid_one(5))),
            ])
            .unwrap(),
        )),
        uid: false,
    };
    assert_eq!(val, expected);
}

#[test]
fn test_parse_search_key() {
    assert!(read_search_key(b"1:5|", 0, 1).is_some());
    assert!(read_search_key(b"(1:5)|", 0, 1).is_none());
    assert!(read_search_key(b"(1:5)|", 0, 2).is_some());
    assert!(read_search_key(b"((1:5))|", 0, 2).is_none());
}

fn known_answer_test_encode((key, expected): (SearchKey, &[u8])) {
    let mut out = Vec::new();
    write_search_key(&mut out, &key);
    assert_eq!(out, expected, "{}", String::from_utf8_lossy(expected));
}

#[test]
fn test_encode_search_key() {
    let date = || NaiveDate::from_ymd(2023, 4, 12).unwrap();
    let a = || AString::try_from_str("A").unwrap();
    let tests = [
        (
            SearchKey::And(Vec1::from_vec(vec![SearchKey::Answered]).unwrap()),
            b"(ANSWERED)".as_ref(),
        ),
        (
            SearchKey::And(Vec1::from_vec(vec![SearchKey::Answered, SearchKey::Seen]).unwrap()),
            b"(ANSWERED SEEN)".as_ref(),
        ),
        (
            SearchKey::SequenceSet(SequenceSetOrSaved::Sequences(SequenceSet::from_sequence(Sequence::Single(
                SeqOrUid::Value(NzNumber::try_from(1).unwrap()),
            )))),
            b"1",
        ),
        (SearchKey::All, b"ALL"),
        (SearchKey::Answered, b"ANSWERED"),
        (SearchKey::Bcc(a()), b"BCC A"),
        (SearchKey::Before(date()), b"BEFORE \"12-Apr-2023\""),
        (SearchKey::Body(a()), b"BODY A"),
        (SearchKey::Cc(a()), b"CC A"),
        (SearchKey::Deleted, b"DELETED"),
        (SearchKey::Draft, b"DRAFT"),
        (SearchKey::Flagged, b"FLAGGED"),
        (SearchKey::From(a()), b"FROM A"),
        (SearchKey::Header(a(), AString::try_from_str("B").unwrap()), b"HEADER A B"),
        (SearchKey::Keyword(Atom::try_from_bytes(b"A").unwrap()), b"KEYWORD A"),
        (SearchKey::Larger(42), b"LARGER 42"),
        (SearchKey::New, b"NEW"),
        (SearchKey::Not(Box::new(SearchKey::New)), b"NOT NEW"),
        (SearchKey::Old, b"OLD"),
        (SearchKey::On(date()), b"ON \"12-Apr-2023\""),
        (
            SearchKey::Or(Box::new(SearchKey::New), Box::new(SearchKey::Recent)),
            b"OR NEW RECENT",
        ),
        (SearchKey::Recent, b"RECENT"),
        (SearchKey::Seen, b"SEEN"),
        (SearchKey::SentBefore(date()), b"SENTBEFORE \"12-Apr-2023\""),
        (SearchKey::SentOn(date()), b"SENTON \"12-Apr-2023\""),
        (SearchKey::SentSince(date()), b"SENTSINCE \"12-Apr-2023\""),
        (SearchKey::Since(date()), b"SINCE \"12-Apr-2023\""),
        (SearchKey::Smaller(1337), b"SMALLER 1337"),
        (SearchKey::Subject(a()), b"SUBJECT A"),
        (SearchKey::Text(a()), b"TEXT A"),
        (SearchKey::To(a()), b"TO A"),
        (
            SearchKey::uid(SequenceSet::from_sequence(Sequence::Range(
                SeqOrUid::Value(NzNumber::try_from(1).unwrap()),
                SeqOrUid::Asterisk,
            ))),
            b"UID 1:*",
        ),
        (SearchKey::Unanswered, b"UNANSWERED"),
        (SearchKey::Undeleted, b"UNDELETED"),
        (SearchKey::Undraft, b"UNDRAFT"),
        (SearchKey::Unflagged, b"UNFLAGGED"),
        (SearchKey::Unkeyword(Atom::try_from_bytes(b"A").unwrap()), b"UNKEYWORD A"),
        (SearchKey::Unseen, b"UNSEEN"),
    ];

    for test in tests {
        known_answer_test_encode(test);
    }
}
