//! UIDPLUS (RFC 4315): sets of UIDs, as `COPYUID` and `APPENDUID` report
//! them, and as `ESEARCH` answers carry them.

use vstd::prelude::*;

use crate::chars::{byte, spec_byte};
use crate::num::{decimal, spec_nz_number, write_number, NzNumber, NzNumberRule};
use crate::rule::{join, read_separated, read_view, spec_separated, Rule};
use crate::vec1::Vec1;

verus! {

broadcast use NzNumber::lemma_view_is_value;

/// One UID, or a range of them.
#[derive(Clone, Copy, Debug, PartialEq, Eq, Hash)]
pub enum UidElement {
    Single(NzNumber),
    Range(NzNumber, NzNumber),
}

/// The model of a [`UidElement`].
pub enum UidElementV {
    Single(u32),
    Range(u32, u32),
}

impl DeepView for UidElement {
    type V = UidElementV;

    open spec fn deep_view(&self) -> UidElementV {
        match self {
            UidElement::Single(a) => UidElementV::Single(a.deep_view()),
            UidElement::Range(a, b) => UidElementV::Range(a.deep_view(), b.deep_view()),
        }
    }
}

/// A set of UIDs: `uid-set = (uniqueid / uid-range) *("," uid-set)`.
#[derive(Debug, PartialEq, Eq, Hash)]
pub struct UidSet(pub Vec1<UidElement>);

impl DeepView for UidSet {
    type V = Seq<UidElementV>;

    open spec fn deep_view(&self) -> Seq<UidElementV> {
        self.0.deep_view()
    }
}

/// The first UID an element names.
pub open spec fn first_uid(e: UidElementV) -> u32 {
    match e {
        UidElementV::Single(a) => a,
        UidElementV::Range(a, _) => a,
    }
}

/// The last UID an element names.
pub open spec fn last_uid(e: UidElementV) -> u32 {
    match e {
        UidElementV::Single(a) => a,
        UidElementV::Range(_, b) => b,
    }
}

/// The UIDs an ascending element names, in order.
pub open spec fn expand(e: UidElementV) -> Seq<u32> {
    match e {
        UidElementV::Single(a) => seq![a],
        UidElementV::Range(a, b) => Seq::new((b - a + 1) as nat, |k: int| (a + k) as u32),
    }
}

/// The UIDs a list of elements names, in order.
pub open spec fn expand_all(es: Seq<UidElementV>) -> Seq<u32>
    decreases es.len(),
{
    if es.len() == 0 {
        seq![]
    } else {
        expand_all(es.drop_last()) + expand(es.last())
    }
}

/// No element could take in the next one: where one ends, the next does
/// not begin with the UID after.
pub open spec fn no_adjacent_runs(es: Seq<UidElementV>) -> bool {
    forall|k: int| 0 <= k < es.len() - 1 ==> last_uid(#[trigger] es[k]) + 1 != first_uid(es[k + 1])
}

/// Every range ascends.
pub open spec fn ranges_ascend(es: Seq<UidElementV>) -> bool {
    forall|k: int| 0 <= k < es.len() ==> (#[trigger] es[k] matches UidElementV::Range(a, b) ==> a < b)
}

/// `es` is `uids` with each run of consecutive ascending UIDs written as
/// one range: what [`UidSet::collapsed`] makes.
pub open spec fn is_collapse_of(es: Seq<UidElementV>, uids: Seq<u32>) -> bool {
    &&& expand_all(es) == uids
    &&& no_adjacent_runs(es)
    &&& ranges_ascend(es)
}

proof fn lemma_expand_all_push(es: Seq<UidElementV>, e: UidElementV)
    ensures
        expand_all(es.push(e)) == expand_all(es) + expand(e),
{
    assert(es.push(e).drop_last() =~= es);
}

impl UidSet {
    /// The set of these UIDs, with runs of consecutive ones written as
    /// ranges; `None` for no UIDs, since a `uid-set` is never empty.
    ///
    /// The order given is kept, and only adjacent ascending runs are
    /// folded: `COPYUID`'s two sets correspond message by message.
    pub fn collapsed(uids: &[NzNumber]) -> (r: Option<UidSet>)
        ensures
            r is None <==> uids@.len() == 0,
            r matches Some(set) ==> is_collapse_of(set.deep_view(), uids.deep_view()),
    {
        let mut elements: Vec<UidElement> = Vec::new();
        let mut k: usize = 0;
        assert(elements.deep_view() =~= seq![]);
        assert(uids.deep_view().subrange(0, 0) =~= seq![]);
        while k < uids.len()
            invariant
                k <= uids@.len(),
                is_collapse_of(elements.deep_view(), uids.deep_view().subrange(0, k as int)),
                k > 0 <==> elements@.len() > 0,
            decreases uids@.len() - k,
        {
            let uid = uids[k];
            let u = uid.get();
            let ghost es = elements.deep_view();
            let ghost us = uids.deep_view();
            assert(us[k as int] == u);
            assert(us.subrange(0, k + 1) =~= us.subrange(0, k as int).push(u));
            let n = elements.len();
            let mut merged: Option<UidElement> = None;
            if n > 0 {
                match elements[n - 1] {
                    UidElement::Single(one) => {
                        if one.get() < u && u - one.get() == 1 {
                            merged = Some(UidElement::Range(one, uid));
                        }
                    },
                    UidElement::Range(start, end) => {
                        if end.get() < u && u - end.get() == 1 {
                            merged = Some(UidElement::Range(start, uid));
                        }
                    },
                }
            }
            match merged {
                Some(m) => {
                    let ghost old_last = es.last();
                    assert(es.last() == elements@[n - 1].deep_view());
                    elements.pop();
                    let ghost popped = elements.deep_view();
                    assert(popped =~= es.drop_last());
                    elements.push(m);
                    proof {
                        let mv = m.deep_view();
                        assert(elements.deep_view() =~= popped.push(mv));
                        lemma_expand_all_push(popped, mv);
                        lemma_expand_all_push(popped, old_last);
                        assert(es =~= popped.push(old_last));
                        assert(expand(mv) =~= expand(old_last).push(u));
                        assert(expand_all(elements.deep_view()) == us.subrange(0, k + 1));
                        let es2 = elements.deep_view();
                        assert forall|j: int| 0 <= j < es2.len() - 1 implies last_uid(#[trigger] es2[j]) + 1 != first_uid(es2[j + 1]) by {
                            assert(es2[j] == es[j]);
                            if j + 1 < es2.len() - 1 {
                                assert(es2[j + 1] == es[j + 1]);
                            }
                        }
                        assert forall|j: int| 0 <= j < es2.len() implies (#[trigger] es2[j] matches UidElementV::Range(a, b) ==> a < b) by {
                            if j < es2.len() - 1 {
                                assert(es2[j] == es[j]);
                            }
                        }
                    }
                },
                None => {
                    elements.push(UidElement::Single(uid));
                    proof {
                        let sv = UidElementV::Single(u);
                        assert(elements.deep_view() =~= es.push(sv));
                        lemma_expand_all_push(es, sv);
                        assert(expand_all(elements.deep_view()) == us.subrange(0, k + 1));
                        let es2 = elements.deep_view();
                        assert forall|j: int| 0 <= j < es2.len() - 1 implies last_uid(#[trigger] es2[j]) + 1 != first_uid(es2[j + 1]) by {
                            assert(es2[j] == es[j]);
                            if j + 1 < es2.len() - 1 {
                                assert(es2[j + 1] == es[j + 1]);
                            } else {
                                assert(es[j] == elements@[n - 1].deep_view());
                            }
                        }
                        assert forall|j: int| 0 <= j < es2.len() implies (#[trigger] es2[j] matches UidElementV::Range(a, b) ==> a < b) by {
                            if j < es2.len() - 1 {
                                assert(es2[j] == es[j]);
                            }
                        }
                    }
                },
            }
            k = k + 1;
        }
        assert(uids.deep_view().subrange(0, k as int) =~= uids.deep_view());
        match Vec1::from_vec_dv(elements) {
            Some(v) => Some(UidSet(v)),
            None => None,
        }
    }

    /// The set of one UID.
    pub fn from_uid(uid: NzNumber) -> (r: UidSet)
        ensures
            r.deep_view() == seq![UidElementV::Single(uid.value())],
    {
        let mut v = Vec::new();
        v.push(UidElement::Single(uid));
        assert(v.deep_view() =~= seq![UidElementV::Single(uid.value())]);
        UidSet(Vec1::from_vec_dv(v).unwrap())
    }
}

/// `:`
pub const COLON: u8 = 58;
/// `,`
pub const COMMA: u8 = 44;

/// `uniqueid / uid-range`, where `uid-range = uniqueid ":" uniqueid`;
/// the range is tried first.
pub open spec fn spec_uid_element(s: Seq<u8>, i: int) -> Option<(UidElementV, int)> {
    match spec_nz_number(s, i) {
        Some((a, j)) => if spec_byte(s, j, COLON) {
            match spec_nz_number(s, j + 1) {
                Some((b, k)) => Some((UidElementV::Range(a, b), k)),
                None => Some((UidElementV::Single(a), j)),
            }
        } else {
            Some((UidElementV::Single(a), j))
        },
        None => None,
    }
}

/// The rule for one element of a `uid-set`.
pub struct UidElementRule;

impl Rule for UidElementRule {
    type Out = UidElement;

    open spec fn spec_read(&self, s: Seq<u8>, i: int) -> Option<(UidElementV, int)> {
        spec_uid_element(s, i)
    }

    fn read(&self, s: &[u8], i: usize) -> (r: Option<(UidElement, usize)>) {
        match NzNumberRule.read(s, i) {
            Some((a, j)) => {
                if byte(s, j, COLON) {
                    match NzNumberRule.read(s, j + 1) {
                        Some((b, k)) => Some((UidElement::Range(a, b), k)),
                        None => Some((UidElement::Single(a), j)),
                    }
                } else {
                    Some((UidElement::Single(a), j))
                }
            },
            None => None,
        }
    }
}

/// `uid-set`
pub open spec fn spec_uid_set(s: Seq<u8>, i: int) -> Option<(Seq<UidElementV>, int)> {
    spec_separated(UidElementRule, s, i, COMMA)
}

/// Reads a `uid-set` at `i`.
pub fn read_uid_set(s: &[u8], i: usize) -> (r: Option<(UidSet, usize)>)
    requires
        i <= s@.len(),
    ensures
        read_view(r) == spec_uid_set(s@, i as int),
        r matches Some((_, j)) ==> i <= j <= s@.len(),
{
    match read_separated(&UidElementRule, s, i, COMMA) {
        Some((v, j)) => Some((UidSet(Vec1::from_vec_dv(v).unwrap()), j)),
        None => None,
    }
}

/// The rule `uid-set`.
pub struct UidSetRule;

impl Rule for UidSetRule {
    type Out = UidSet;

    open spec fn spec_read(&self, s: Seq<u8>, i: int) -> Option<(Seq<UidElementV>, int)> {
        spec_uid_set(s, i)
    }

    fn read(&self, s: &[u8], i: usize) -> (r: Option<(UidSet, usize)>) {
        read_uid_set(s, i)
    }
}

/// How an element is written.
pub open spec fn spec_write_uid_element(e: UidElementV) -> Seq<u8> {
    match e {
        UidElementV::Single(a) => decimal(a as nat),
        UidElementV::Range(a, b) => decimal(a as nat) + seq![COLON] + decimal(b as nat),
    }
}

/// How a `uid-set` is written: its elements, separated by commas.
pub open spec fn spec_write_uid_set(es: Seq<UidElementV>) -> Seq<u8> {
    join(es.map_values(|e: UidElementV| spec_write_uid_element(e)), seq![COMMA])
}

/// Writes an element.
pub fn write_uid_element(out: &mut Vec<u8>, e: &UidElement)
    ensures
        final(out)@ == old(out)@ + spec_write_uid_element(e.deep_view()),
{
    let ghost start = old(out)@;
    match e {
        UidElement::Single(a) => write_number(out, a.get()),
        UidElement::Range(a, b) => {
            write_number(out, a.get());
            out.push(COLON);
            write_number(out, b.get());
            assert(out@ =~= start + (decimal(a.value() as nat) + seq![COLON] + decimal(b.value() as nat)));
        },
    }
}

/// Writes a `uid-set`.
pub fn write_uid_set(out: &mut Vec<u8>, set: &UidSet)
    ensures
        final(out)@ == old(out)@ + spec_write_uid_set(set.deep_view()),
{
    let ghost start = old(out)@;
    let items = set.0.as_slice_dv();
    let ghost es = set.deep_view();
    let ghost ws = es.map_values(|e: UidElementV| spec_write_uid_element(e));
    let mut k: usize = 0;
    while k < items.len()
        invariant
            k <= items@.len(),
            items.deep_view() == es,
            ws == es.map_values(|e: UidElementV| spec_write_uid_element(e)),
            out@ == start + join(ws.subrange(0, k as int), seq![COMMA]),
        decreases items@.len() - k,
    {
        let ghost before = out@;
        if k > 0 {
            out.push(COMMA);
        }
        write_uid_element(out, &items[k]);
        proof {
            let w = ws.subrange(0, k + 1);
            assert(w.drop_last() =~= ws.subrange(0, k as int));
            assert(items[k as int].deep_view() == es[k as int]);
            if k == 0 {
                assert(join(ws.subrange(0, 0), seq![COMMA]) == Seq::<u8>::empty());
                assert(out@ =~= start + join(w, seq![COMMA]));
            } else {
                assert(out@ =~= start + join(w, seq![COMMA]));
            }
        }
        k = k + 1;
    }
    assert(ws.subrange(0, k as int) =~= ws);
}

} // verus!

verus! {

/// Whether an element can be written and read back: no UID in it is zero.
pub open spec fn writable_uid_element(e: UidElementV) -> bool {
    match e {
        UidElementV::Single(a) => a != 0,
        UidElementV::Range(a, b) => a != 0 && b != 0,
    }
}

/// Whether a `uid-set` can be written and read back: not empty, and each
/// element can.
pub open spec fn writable_uid_set(es: Seq<UidElementV>) -> bool {
    es.len() > 0 && forall|k: int| 0 <= k < es.len() ==> writable_uid_element(#[trigger] es[k])
}

/// Whether a byte ends a `uid-set`: no digit, `:` or `,`.
pub open spec fn ends_uid_set(b: u8) -> bool {
    !crate::chars::is_digit(b) && b != COLON && b != COMMA
}

/// An element written at `i`, and followed by a byte that is neither a
/// digit nor `:`, reads back.
proof fn lemma_uid_element_round_trip(e: UidElementV, s: Seq<u8>, i: int)
    requires
        writable_uid_element(e),
        0 <= i,
        i + spec_write_uid_element(e).len() < s.len(),
        s.subrange(i, i + spec_write_uid_element(e).len()) == spec_write_uid_element(e),
        !crate::chars::is_digit(s[i + spec_write_uid_element(e).len()]),
        s[i + spec_write_uid_element(e).len()] != COLON,
    ensures
        spec_uid_element(s, i) == Some((e, i + spec_write_uid_element(e).len())),
{
    let w = spec_write_uid_element(e);
    match e {
        UidElementV::Single(a) => {
            crate::num::lemma_nz_number_round_trip(a, s, i);
        },
        UidElementV::Range(a, b) => {
            let da = decimal(a as nat);
            let db = decimal(b as nat);
            crate::chars::lemma_part(s, i, w, 0, da.len() as int);
            assert(w.subrange(0, da.len() as int) =~= da);
            let j = i + da.len();
            assert(s[j] == s.subrange(i, i + w.len())[da.len() as int]);
            crate::num::lemma_nz_number_round_trip(a, s, i);
            crate::chars::lemma_part(s, i, w, da.len() + 1int, db.len() as int);
            assert(w.subrange(da.len() + 1int, w.len() as int) =~= db);
            crate::num::lemma_nz_number_round_trip(b, s, j + 1);
        },
    }
}

/// A `uid-set` written at `i`, and followed by a byte that ends one,
/// reads back.
pub proof fn lemma_uid_set_round_trip(es: Seq<UidElementV>, s: Seq<u8>, i: int)
    requires
        writable_uid_set(es),
        0 <= i,
        i + spec_write_uid_set(es).len() < s.len(),
        s.subrange(i, i + spec_write_uid_set(es).len()) == spec_write_uid_set(es),
        ends_uid_set(s[i + spec_write_uid_set(es).len()]),
    ensures
        spec_uid_set(s, i) == Some((es, i + spec_write_uid_set(es).len())),
        crate::chars::is_digit(s[i]),
{
    let ws = es.map_values(|e: UidElementV| spec_write_uid_element(e));
    let after = |b: u8| !crate::chars::is_digit(b) && b != COLON;
    assert forall|k: int, q: int| 0 <= k < es.len() implies #[trigger] crate::rule::reads_at(UidElementRule, s, q, es[k], ws[k], after) by {
        assert(ws[k] == spec_write_uid_element(es[k]));
        if 0 <= q && q + ws[k].len() < s.len() && s.subrange(q, q + ws[k].len()) == ws[k] && after(s[q + ws[k].len()]) {
            lemma_uid_element_round_trip(es[k], s, q);
        }
    }
    crate::rule::lemma_separated_round_trip(UidElementRule, es, ws, s, i, COMMA, after);
    crate::rule::lemma_join_front(ws, seq![COMMA]);
    let a = first_uid(es[0]);
    crate::num::lemma_decimal(a as nat);
    assert(ws[0][0] == decimal(a as nat)[0]);
    assert(s[i] == spec_write_uid_set(es)[0]);
}

} // verus!
