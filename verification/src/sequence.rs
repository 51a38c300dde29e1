//! Sequence sets: which messages a command names, by number or by UID,
//! and `$`, the saved result of a search (RFC 5182).

use vstd::prelude::*;
use vstd::string::StringSliceAdditionalSpecFns;

use crate::chars::{byte, is_digit, spec_byte};
use crate::num::{decimal, lemma_decimal, lemma_number_round_trip, spec_nz_number, write_number, NzNumber, NzNumberRule};
use crate::rule::{
    join, lemma_join_front, lemma_prefixed_front, prefixed, read_separated, read_view,
    spec_preceded, spec_separated, Rule,
};
use crate::uidplus::{COLON, COMMA};
use crate::vec1::Vec1;

verus! {

broadcast use NzNumber::lemma_view_is_value;

/// `seq-number = nz-number / "*"`: a number, or the largest in use.
#[derive(Clone, Copy, Debug, PartialEq, Eq, Hash)]
pub enum SeqOrUid {
    Value(NzNumber),
    Asterisk,
}

/// The model of a [`SeqOrUid`].
pub enum SeqOrUidV {
    Value(u32),
    Asterisk,
}

impl DeepView for SeqOrUid {
    type V = SeqOrUidV;

    open spec fn deep_view(&self) -> SeqOrUidV {
        match self {
            SeqOrUid::Value(n) => SeqOrUidV::Value(n.deep_view()),
            SeqOrUid::Asterisk => SeqOrUidV::Asterisk,
        }
    }
}

/// `seq-number / seq-range`
#[derive(Clone, Copy, Debug, PartialEq, Eq, Hash)]
pub enum Sequence {
    Single(SeqOrUid),
    Range(SeqOrUid, SeqOrUid),
}

/// The model of a [`Sequence`].
pub enum SequenceV {
    Single(SeqOrUidV),
    Range(SeqOrUidV, SeqOrUidV),
}

impl DeepView for Sequence {
    type V = SequenceV;

    open spec fn deep_view(&self) -> SequenceV {
        match self {
            Sequence::Single(a) => SequenceV::Single(a.deep_view()),
            Sequence::Range(a, b) => SequenceV::Range(a.deep_view(), b.deep_view()),
        }
    }
}

/// `sequence-set = (seq-number / seq-range) ["," sequence-set]`
#[derive(Debug, PartialEq, Eq, Hash)]
pub struct SequenceSet(pub Vec1<Sequence>);

impl DeepView for SequenceSet {
    type V = Seq<SequenceV>;

    open spec fn deep_view(&self) -> Seq<SequenceV> {
        self.0.deep_view()
    }
}

/// A sequence set, or `$`: the messages a `SEARCH RETURN (SAVE)` kept.
/// `$` is the whole set and never one element of it.
#[derive(Debug, PartialEq, Eq, Hash)]
pub enum SequenceSetOrSaved {
    Saved,
    Sequences(SequenceSet),
}

/// The model of a [`SequenceSetOrSaved`]: `None` for `$`.
impl DeepView for SequenceSetOrSaved {
    type V = Option<Seq<SequenceV>>;

    open spec fn deep_view(&self) -> Option<Seq<SequenceV>> {
        match self {
            SequenceSetOrSaved::Saved => None,
            SequenceSetOrSaved::Sequences(s) => Some(s.deep_view()),
        }
    }
}

impl SequenceSet {
    /// The set of one sequence.
    pub fn from_sequence(seq: Sequence) -> (r: SequenceSet)
        ensures
            r.deep_view() == seq![seq.deep_view()],
    {
        let mut v = Vec::new();
        v.push(seq);
        assert(v.deep_view() =~= seq![seq.deep_view()]);
        SequenceSet(Vec1::from_vec_dv(v).unwrap())
    }
}

/// `*`
pub const ASTERISK: u8 = 42;
/// `$`
pub const DOLLAR: u8 = 36;

/// `seq-number = nz-number / "*"`
pub open spec fn spec_seq_number(s: Seq<u8>, i: int) -> Option<(SeqOrUidV, int)> {
    match spec_nz_number(s, i) {
        Some((n, j)) => Some((SeqOrUidV::Value(n), j)),
        None => if spec_byte(s, i, ASTERISK) {
            Some((SeqOrUidV::Asterisk, i + 1))
        } else {
            None
        },
    }
}

/// Reads a `seq-number` at `i`.
pub fn read_seq_number(s: &[u8], i: usize) -> (r: Option<(SeqOrUid, usize)>)
    requires
        i <= s@.len(),
    ensures
        read_view(r) == spec_seq_number(s@, i as int),
        r matches Some((_, j)) ==> i < j <= s@.len(),
{
    match NzNumberRule.read(s, i) {
        Some((n, j)) => Some((SeqOrUid::Value(n), j)),
        None => if byte(s, i, ASTERISK) {
            Some((SeqOrUid::Asterisk, i + 1))
        } else {
            None
        },
    }
}

/// `seq-range = seq-number ":" seq-number`
pub open spec fn spec_seq_range(s: Seq<u8>, i: int) -> Option<((SeqOrUidV, SeqOrUidV), int)> {
    match spec_seq_number(s, i) {
        Some((a, j)) => if spec_byte(s, j, COLON) {
            match spec_seq_number(s, j + 1) {
                Some((b, k)) => Some(((a, b), k)),
                None => None,
            }
        } else {
            None
        },
        None => None,
    }
}

/// Reads a `seq-range` at `i`.
pub fn read_seq_range(s: &[u8], i: usize) -> (r: Option<((SeqOrUid, SeqOrUid), usize)>)
    requires
        i <= s@.len(),
    ensures
        read_view(r) == spec_seq_range(s@, i as int),
        r matches Some((_, j)) ==> i < j <= s@.len(),
{
    match read_seq_number(s, i) {
        Some((a, j)) => if byte(s, j, COLON) {
            match read_seq_number(s, j + 1) {
                Some((b, k)) => Some(((a, b), k)),
                None => None,
            }
        } else {
            None
        },
        None => None,
    }
}

/// One element of a sequence set: a range is tried before a number.
pub open spec fn spec_sequence(s: Seq<u8>, i: int) -> Option<(SequenceV, int)> {
    match spec_seq_range(s, i) {
        Some(((a, b), k)) => Some((SequenceV::Range(a, b), k)),
        None => match spec_seq_number(s, i) {
            Some((a, j)) => Some((SequenceV::Single(a), j)),
            None => None,
        },
    }
}

/// The rule for one element of a sequence set.
pub struct SequenceRule;

impl Rule for SequenceRule {
    type Out = Sequence;

    open spec fn spec_read(&self, s: Seq<u8>, i: int) -> Option<(SequenceV, int)> {
        spec_sequence(s, i)
    }

    fn read(&self, s: &[u8], i: usize) -> (r: Option<(Sequence, usize)>) {
        match read_seq_range(s, i) {
            Some(((a, b), k)) => Some((Sequence::Range(a, b), k)),
            None => match read_seq_number(s, i) {
                Some((a, j)) => Some((Sequence::Single(a), j)),
                None => None,
            },
        }
    }
}

/// `sequence-set`
pub open spec fn spec_sequence_set(s: Seq<u8>, i: int) -> Option<(Seq<SequenceV>, int)> {
    spec_separated(SequenceRule, s, i, COMMA)
}

/// Reads a `sequence-set` at `i`.
pub fn read_sequence_set(s: &[u8], i: usize) -> (r: Option<(SequenceSet, usize)>)
    requires
        i <= s@.len(),
    ensures
        read_view(r) == spec_sequence_set(s@, i as int),
        r matches Some((_, j)) ==> i <= j <= s@.len(),
{
    match read_separated(&SequenceRule, s, i, COMMA) {
        Some((v, j)) => {
            Some((SequenceSet(Vec1::from_vec_dv(v).unwrap()), j))
        },
        None => None,
    }
}

/// `sequence-set / "$"`
pub open spec fn spec_sequence_set_or_saved(s: Seq<u8>, i: int) -> Option<(Option<Seq<SequenceV>>, int)> {
    if spec_byte(s, i, DOLLAR) {
        Some((None, i + 1))
    } else {
        match spec_sequence_set(s, i) {
            Some((v, j)) => Some((Some(v), j)),
            None => None,
        }
    }
}

/// Reads a sequence set or `$` at `i`.
pub fn read_sequence_set_or_saved(s: &[u8], i: usize) -> (r: Option<(SequenceSetOrSaved, usize)>)
    requires
        i <= s@.len(),
    ensures
        read_view(r) == spec_sequence_set_or_saved(s@, i as int),
        r matches Some((_, j)) ==> i <= j <= s@.len(),
{
    if byte(s, i, DOLLAR) {
        Some((SequenceSetOrSaved::Saved, i + 1))
    } else {
        match read_sequence_set(s, i) {
            Some((v, j)) => Some((SequenceSetOrSaved::Sequences(v), j)),
            None => None,
        }
    }
}

/// The sequence set or `$` that a whole text spells.
pub open spec fn spec_sequence_set_or_saved_of(s: Seq<u8>) -> Option<Option<Seq<SequenceV>>> {
    match spec_sequence_set_or_saved(s, 0) {
        Some((v, j)) => if j == s.len() { Some(v) } else { None },
        None => None,
    }
}

impl SequenceSetOrSaved {
    /// The sequence set or `$` that the whole of `s` spells; `None` where
    /// it spells neither or something is left over.
    pub fn try_from_bytes(s: &[u8]) -> (r: Option<SequenceSetOrSaved>)
        ensures
            r matches Some(v) ==> spec_sequence_set_or_saved_of(s@) == Some(v.deep_view()),
            r is None ==> spec_sequence_set_or_saved_of(s@) is None,
    {
        match read_sequence_set_or_saved(s, 0) {
            Some((v, j)) => if j == s.len() { Some(v) } else { None },
            None => None,
        }
    }

    /// The sequence set or `$` that the whole text spells.
    pub fn try_from_str(s: &str) -> (r: Option<SequenceSetOrSaved>)
        ensures
            r matches Some(v) ==> spec_sequence_set_or_saved_of(s.spec_bytes()) == Some(v.deep_view()),
            r is None ==> spec_sequence_set_or_saved_of(s.spec_bytes()) is None,
    {
        SequenceSetOrSaved::try_from_bytes(s.as_bytes())
    }
}

/// The rule `sequence-set / "$"`.
pub struct SequenceSetOrSavedRule;

impl Rule for SequenceSetOrSavedRule {
    type Out = SequenceSetOrSaved;

    open spec fn spec_read(&self, s: Seq<u8>, i: int) -> Option<(Option<Seq<SequenceV>>, int)> {
        spec_sequence_set_or_saved(s, i)
    }

    fn read(&self, s: &[u8], i: usize) -> (r: Option<(SequenceSetOrSaved, usize)>) {
        read_sequence_set_or_saved(s, i)
    }
}

// ---------------------------------------------------------------------
// Writing.

/// How a `seq-number` is written.
pub open spec fn spec_write_seq_number(n: SeqOrUidV) -> Seq<u8> {
    match n {
        SeqOrUidV::Value(v) => decimal(v as nat),
        SeqOrUidV::Asterisk => seq![ASTERISK],
    }
}

/// How an element of a sequence set is written.
pub open spec fn spec_write_sequence(e: SequenceV) -> Seq<u8> {
    match e {
        SequenceV::Single(a) => spec_write_seq_number(a),
        SequenceV::Range(a, b) => spec_write_seq_number(a) + seq![COLON] + spec_write_seq_number(b),
    }
}

/// The written elements of a sequence set.
pub open spec fn written_sequences(es: Seq<SequenceV>) -> Seq<Seq<u8>> {
    es.map_values(|e: SequenceV| spec_write_sequence(e))
}

/// How a sequence set is written: its elements, separated by commas.
pub open spec fn spec_write_sequence_set(es: Seq<SequenceV>) -> Seq<u8> {
    join(written_sequences(es), seq![COMMA])
}

/// How a sequence set or `$` is written.
pub open spec fn spec_write_sequence_set_or_saved(v: Option<Seq<SequenceV>>) -> Seq<u8> {
    match v {
        None => seq![DOLLAR],
        Some(es) => spec_write_sequence_set(es),
    }
}

/// Writes a `seq-number`.
pub fn write_seq_number(out: &mut Vec<u8>, n: &SeqOrUid)
    ensures
        final(out)@ == old(out)@ + spec_write_seq_number(n.deep_view()),
{
    match n {
        SeqOrUid::Value(v) => write_number(out, v.get()),
        SeqOrUid::Asterisk => {
            out.push(ASTERISK);
        },
    }
}

/// Writes an element of a sequence set.
pub fn write_sequence(out: &mut Vec<u8>, e: &Sequence)
    ensures
        final(out)@ == old(out)@ + spec_write_sequence(e.deep_view()),
{
    let ghost start = old(out)@;
    match e {
        Sequence::Single(a) => write_seq_number(out, a),
        Sequence::Range(a, b) => {
            write_seq_number(out, a);
            out.push(COLON);
            write_seq_number(out, b);
            assert(out@ =~= start + (spec_write_seq_number(a.deep_view()) + seq![COLON] + spec_write_seq_number(b.deep_view())));
        },
    }
}

/// Writes a sequence set.
pub fn write_sequence_set(out: &mut Vec<u8>, set: &SequenceSet)
    ensures
        final(out)@ == old(out)@ + spec_write_sequence_set(set.deep_view()),
{
    let ghost start = old(out)@;
    let items = set.0.as_slice_dv();
    let ghost es = set.deep_view();
    let ghost ws = written_sequences(es);
    let mut k: usize = 0;
    while k < items.len()
        invariant
            k <= items@.len(),
            items.deep_view() == es,
            ws == written_sequences(es),
            out@ == start + join(ws.subrange(0, k as int), seq![COMMA]),
        decreases items@.len() - k,
    {
        if k > 0 {
            out.push(COMMA);
        }
        write_sequence(out, &items[k]);
        proof {
            let w = ws.subrange(0, k + 1);
            assert(w.drop_last() =~= ws.subrange(0, k as int));
            assert(items[k as int].deep_view() == es[k as int]);
            if k == 0 {
                assert(join(ws.subrange(0, 0), seq![COMMA]) == Seq::<u8>::empty());
            }
            assert(out@ =~= start + join(w, seq![COMMA]));
        }
        k = k + 1;
    }
    assert(ws.subrange(0, k as int) =~= ws);
}

/// Writes a sequence set or `$`.
pub fn write_sequence_set_or_saved(out: &mut Vec<u8>, v: &SequenceSetOrSaved)
    ensures
        final(out)@ == old(out)@ + spec_write_sequence_set_or_saved(v.deep_view()),
{
    match v {
        SequenceSetOrSaved::Saved => {
            out.push(DOLLAR);
        },
        SequenceSetOrSaved::Sequences(set) => write_sequence_set(out, set),
    }
}

} // verus!

verus! {

// ---------------------------------------------------------------------
// Reading back what was written.

/// A number in a model is not zero, as `nz-number` requires.
pub open spec fn wf_seq_number(n: SeqOrUidV) -> bool {
    n matches SeqOrUidV::Value(v) ==> v != 0
}

/// The numbers of an element are well formed.
pub open spec fn wf_sequence(e: SequenceV) -> bool {
    match e {
        SequenceV::Single(a) => wf_seq_number(a),
        SequenceV::Range(a, b) => wf_seq_number(a) && wf_seq_number(b),
    }
}

/// A sequence set's model is well formed: not empty, its numbers not
/// zero.
pub open spec fn wf_sequence_set(es: Seq<SequenceV>) -> bool {
    es.len() > 0 && forall|k: int| 0 <= k < es.len() ==> wf_sequence(#[trigger] es[k])
}

/// A byte that cannot continue a sequence set.
pub open spec fn ends_sequence_set(b: u8) -> bool {
    !is_digit(b) && b != COLON && b != COMMA
}

proof fn lemma_seq_number_round_trip(n: SeqOrUidV, s: Seq<u8>, i: int)
    requires
        wf_seq_number(n),
        0 <= i,
        i + spec_write_seq_number(n).len() < s.len(),
        s.subrange(i, i + spec_write_seq_number(n).len()) == spec_write_seq_number(n),
        !is_digit(s[i + spec_write_seq_number(n).len()]),
    ensures
        spec_seq_number(s, i) == Some((n, i + spec_write_seq_number(n).len())),
{
    match n {
        SeqOrUidV::Value(v) => {
            lemma_number_round_trip(v, s, i);
        },
        SeqOrUidV::Asterisk => {
            assert(s[i] == s.subrange(i, i + 1)[0]);
            crate::chars::lemma_scan_end_of_run(s, i, i, crate::chars::ByteClass::Digit);
        },
    }
}

proof fn lemma_sequence_round_trip(e: SequenceV, s: Seq<u8>, i: int)
    requires
        wf_sequence(e),
        0 <= i,
        i + spec_write_sequence(e).len() < s.len(),
        s.subrange(i, i + spec_write_sequence(e).len()) == spec_write_sequence(e),
        !is_digit(s[i + spec_write_sequence(e).len()]),
        s[i + spec_write_sequence(e).len()] != COLON,
    ensures
        spec_sequence(s, i) == Some((e, i + spec_write_sequence(e).len())),
{
    match e {
        SequenceV::Single(a) => {
            lemma_seq_number_round_trip(a, s, i);
        },
        SequenceV::Range(a, b) => {
            let wa = spec_write_seq_number(a);
            let wb = spec_write_seq_number(b);
            let w = spec_write_sequence(e);
            let la = wa.len() as int;
            assert(s.subrange(i, i + la) =~= w.subrange(0, la));
            assert(w.subrange(0, la) =~= wa);
            assert(s[i + la] == w[la]);
            lemma_seq_number_round_trip(a, s, i);
            assert(s.subrange(i + la + 1, i + la + 1 + wb.len()) =~= w.subrange(la + 1, w.len() as int));
            assert(w.subrange(la + 1, w.len() as int) =~= wb);
            lemma_seq_number_round_trip(b, s, i + la + 1);
        },
    }
}

proof fn lemma_preceded_sequences(es: Seq<SequenceV>, s: Seq<u8>, i: int)
    requires
        forall|k: int| 0 <= k < es.len() ==> wf_sequence(#[trigger] es[k]),
        0 <= i,
        i + prefixed(written_sequences(es), seq![COMMA]).len() < s.len(),
        s.subrange(i, i + prefixed(written_sequences(es), seq![COMMA]).len()) == prefixed(written_sequences(es), seq![COMMA]),
        ends_sequence_set(s[i + prefixed(written_sequences(es), seq![COMMA]).len()]),
    ensures
        spec_preceded(SequenceRule, s, i, COMMA) == (es, i + prefixed(written_sequences(es), seq![COMMA]).len()),
    decreases es.len(),
{
    let ws = written_sequences(es);
    let p = prefixed(ws, seq![COMMA]);
    if es.len() == 0 {
        assert(p == Seq::<u8>::empty());
        assert(es =~= seq![]);
    } else {
        lemma_prefixed_front(ws, seq![COMMA]);
        let rest = es.drop_first();
        assert(ws.drop_first() =~= written_sequences(rest));
        let w0 = ws[0];
        assert(w0 == spec_write_sequence(es[0]));
        let p2 = prefixed(written_sequences(rest), seq![COMMA]);
        assert(p =~= seq![COMMA] + w0 + p2);
        assert(s[i] == p[0]);
        let j = i + 1 + w0.len() as int;
        assert(s.subrange(i + 1, j) =~= p.subrange(1, 1 + w0.len() as int));
        assert(p.subrange(1, 1 + w0.len() as int) =~= w0);
        assert(s[j] == s.subrange(i, i + p.len() + 1)[j - i]);
        if rest.len() > 0 {
            lemma_prefixed_front(written_sequences(rest), seq![COMMA]);
            assert(s[j] == p[j - i]);
            assert(p[j - i] == p2[0]);
        } else {
            assert(p2 == Seq::<u8>::empty());
            assert(j == i + p.len());
        }
        lemma_sequence_round_trip(es[0], s, i + 1);
        assert(s.subrange(j, j + p2.len()) =~= p.subrange(1 + w0.len() as int, p.len() as int));
        assert(p.subrange(1 + w0.len() as int, p.len() as int) =~= p2);
        assert forall|k: int| 0 <= k < rest.len() implies wf_sequence(#[trigger] rest[k]) by {
            assert(rest[k] == es[k + 1]);
        }
        lemma_preceded_sequences(rest, s, j);
        assert(seq![es[0]] + rest =~= es);
    }
}

/// A sequence set, written and followed by a byte that cannot continue
/// it, reads back as itself.
pub proof fn lemma_sequence_set_round_trip(es: Seq<SequenceV>, rest: Seq<u8>)
    requires
        wf_sequence_set(es),
        rest.len() > 0,
        ends_sequence_set(rest[0]),
    ensures
        spec_sequence_set(spec_write_sequence_set(es) + rest, 0) == Some((es, spec_write_sequence_set(es).len() as int)),
{
    let w = spec_write_sequence_set(es);
    let s = w + rest;
    assert(s.subrange(0, w.len() as int) =~= w);
    assert(s[w.len() as int] == rest[0]);
    lemma_sequence_set_round_trip_at(es, s, 0);
}

} // verus!

verus! {

/// A sequence set written at `i`, and followed by a byte that cannot
/// continue it, reads back as itself.
pub proof fn lemma_sequence_set_round_trip_at(es: Seq<SequenceV>, s: Seq<u8>, i: int)
    requires
        wf_sequence_set(es),
        0 <= i,
        i + spec_write_sequence_set(es).len() < s.len(),
        s.subrange(i, i + spec_write_sequence_set(es).len()) == spec_write_sequence_set(es),
        ends_sequence_set(s[i + spec_write_sequence_set(es).len()]),
    ensures
        spec_sequence_set(s, i) == Some((es, i + spec_write_sequence_set(es).len())),
{
    let ws = written_sequences(es);
    let w = spec_write_sequence_set(es);
    lemma_join_front(ws, seq![COMMA]);
    let w0 = ws[0];
    let tail = es.drop_first();
    assert(ws.drop_first() =~= written_sequences(tail));
    let p = prefixed(written_sequences(tail), seq![COMMA]);
    assert(w =~= w0 + p);
    let j = i + w0.len() as int;
    assert(s.subrange(i, j) =~= w.subrange(0, w0.len() as int));
    assert(w.subrange(0, w0.len() as int) =~= w0);
    if tail.len() > 0 {
        lemma_prefixed_front(written_sequences(tail), seq![COMMA]);
        assert(s[j] == w[w0.len() as int]);
        assert(w[w0.len() as int] == p[0]);
    } else {
        assert(p == Seq::<u8>::empty());
        assert(j == i + w.len());
    }
    lemma_sequence_round_trip(es[0], s, i);
    assert(s.subrange(j, j + p.len()) =~= w.subrange(w0.len() as int, w.len() as int));
    assert(w.subrange(w0.len() as int, w.len() as int) =~= p);
    assert forall|k: int| 0 <= k < tail.len() implies wf_sequence(#[trigger] tail[k]) by {
        assert(tail[k] == es[k + 1]);
    }
    lemma_preceded_sequences(tail, s, j);
    assert(seq![es[0]] + tail =~= es);
}

/// A set or `$` written at `i`, and followed by a byte that cannot
/// continue a set, reads back as itself.
pub proof fn lemma_sequence_set_or_saved_round_trip(q: Option<Seq<SequenceV>>, s: Seq<u8>, i: int)
    requires
        q matches Some(es) ==> wf_sequence_set(es),
        0 <= i,
        i + spec_write_sequence_set_or_saved(q).len() < s.len(),
        s.subrange(i, i + spec_write_sequence_set_or_saved(q).len()) == spec_write_sequence_set_or_saved(q),
        ends_sequence_set(s[i + spec_write_sequence_set_or_saved(q).len()]),
    ensures
        spec_sequence_set_or_saved(s, i) == Some((q, i + spec_write_sequence_set_or_saved(q).len())),
{
    match q {
        None => {
            assert(s[i] == s.subrange(i, i + 1)[0]);
        },
        Some(es) => {
            let w = spec_write_sequence_set(es);
            lemma_join_front(written_sequences(es), seq![COMMA]);
            let w0 = spec_write_sequence(es[0]);
            assert(w[0] == w0[0]);
            assert(s[i] == w[0]);
            match es[0] {
                SequenceV::Single(SeqOrUidV::Value(v)) => {
                    crate::num::lemma_decimal(v as nat);
                },
                SequenceV::Range(SeqOrUidV::Value(v), _) => {
                    crate::num::lemma_decimal(v as nat);
                    assert(w0[0] == crate::num::decimal(v as nat)[0]);
                },
                _ => {},
            }
            assert(s[i] != DOLLAR);
            lemma_sequence_set_round_trip_at(es, s, i);
        },
    }
}

} // verus!
