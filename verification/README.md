# imap_codec

A reader and writer for a part of the IMAP grammar (RFC 9051 and the
extensions ACL, NOTIFY, URLAUTH, OBJECTID, LIST-EXTENDED, ESEARCH, SEARCHRES
and UIDPLUS), verified with Verus.

Every reader is an executable function whose contract says that it returns
exactly what a spec function of the grammar gives on the same bytes; every
writer says which bytes it appends. On top of these, proof functions state
what holds across them:

- A command reads back as itself from the bytes it is written as
  (`command::lemma_command_round_trip`) where its body is one of those named
  by `command::round_trip_body`: the five ACL commands, `NOTIFY`,
  `UNAUTHENTICATE`, `GENURLAUTH`, `RESETKEY`, `URLFETCH`, `LIST`, `STATUS`,
  `SEARCH`, `FETCH`, `STORE`, `COPY`, `MOVE` (these five with or without
  `UID`) and `UID EXPUNGE`. A single search key reads back too
  (`search::lemma_search_key_round_trip`), nested within the depth read.
- A response reads back as itself (`response::lemma_response_round_trip`),
  whatever it is, where its values can be written
  (`response::round_trip_response`): every status response, its codes
  `URLMECH` included, and every data response, `LIST` with extended items,
  `ESEARCH`, `FETCH` and `URLFETCH` included.
- An event group of `NOTIFY` reads back (`notify::lemma_event_group_round_trip`),
  fetch attributes of `MessageNew` included (`fetch::lemma_fetch_att_round_trip`).
- A search key read at one depth is read the same at every greater depth,
  and the keys inside it sit within that depth
  (`search::lemma_search_key_depth`).
- The same reading back holds of the pieces commands and responses are made
  of (sequence sets, mailboxes, strings, list options, status items).

Layout of `src/`:

- `chars`, `rule`: byte classes, keywords, and the generic rules and
  writers (`item *(SP item)`, parenthesized lists) with their read-back
  lemmas.
- `num`, `strings`, `vec1`, `objectid`, `date`: numbers, atoms, quoted
  strings, literals, tags, non-empty vectors, object identifiers, dates.
- `sequence`, `uidplus`: sequence sets, `$`, UID sets and their folding.
- `mailbox`, `status`, `fetch`, `search`, `search_return`, `notify`,
  `urlauth`, `acl`, `body`: the parts of commands and responses (`body`
  holds a body structure as the balanced run of tokens it is written as).
- `text`: the messages that say why a value was refused.
- `command`, `response`: whole lines, `CommandCodec` and `ResponseCodec`.

`tests/` runs the library on the examples of the RFCs.
