//! Grammar rules as values: a rule reads a value at a position of the
//! input and says where it ended, and its specification says the same of
//! the models of the values. Lists of items are built from rules here.

use vstd::prelude::*;

use crate::chars::{byte, spec_byte, LPAREN, RPAREN, SP};

verus! {

/// The model of what a reader returned: the value's model and the end.
pub open spec fn read_view<T: DeepView>(r: Option<(T, usize)>) -> Option<(T::V, int)> {
    match r {
        Some((v, j)) => Some((v.deep_view(), j as int)),
        None => None,
    }
}

/// A rule of the grammar.
pub trait Rule {
    type Out: DeepView;

    /// What reading at `i` gives: the model of the value and where it
    /// ends, or `None` when the input does not hold the rule there.
    spec fn spec_read(&self, s: Seq<u8>, i: int) -> Option<(<Self::Out as DeepView>::V, int)>;

    /// Reads the rule at `i`.
    fn read(&self, s: &[u8], i: usize) -> (r: Option<(Self::Out, usize)>)
        requires
            i <= s@.len(),
        ensures
            read_view(r) == self.spec_read(s@, i as int),
            r matches Some((_, j)) ==> i <= j <= s@.len(),
    ;
}

/// `*(sep item)`: items, each after a separator byte. Reading stops
/// before a separator that no item follows.
pub open spec fn spec_preceded<P: Rule>(p: P, s: Seq<u8>, i: int, sep: u8) -> (Seq<<P::Out as DeepView>::V>, int)
    decreases s.len() - i,
{
    if 0 <= i < s.len() && s[i] == sep {
        match p.spec_read(s, i + 1) {
            Some((v, j)) => if i < j <= s.len() {
                let (vs, k) = spec_preceded(p, s, j, sep);
                (seq![v] + vs, k)
            } else {
                (seq![], i)
            },
            None => (seq![], i),
        }
    } else {
        (seq![], i)
    }
}

proof fn lemma_preceded_bounds<P: Rule>(p: P, s: Seq<u8>, i: int, sep: u8)
    requires
        0 <= i <= s.len(),
    ensures
        i <= spec_preceded(p, s, i, sep).1 <= s.len(),
    decreases s.len() - i,
{
    if 0 <= i < s.len() && s[i] == sep {
        if let Some((v, j)) = p.spec_read(s, i + 1) {
            if i < j <= s.len() {
                lemma_preceded_bounds(p, s, j, sep);
            }
        }
    }
}

/// Reads `*(sep item)` at `i`.
pub fn read_preceded<P: Rule>(p: &P, s: &[u8], i: usize, sep: u8) -> (r: (Vec<P::Out>, usize))
    requires
        i <= s@.len(),
    ensures
        (r.0.deep_view(), r.1 as int) == spec_preceded(*p, s@, i as int, sep),
        i <= r.1 <= s@.len(),
{
    let mut acc: Vec<P::Out> = Vec::new();
    let mut k = i;
    proof {
        lemma_preceded_bounds(*p, s@, i as int, sep);
    }
    loop
        invariant
            i <= k <= s@.len(),
            spec_preceded(*p, s@, i as int, sep) == (
                acc.deep_view() + spec_preceded(*p, s@, k as int, sep).0,
                spec_preceded(*p, s@, k as int, sep).1,
            ),
        decreases s@.len() - k,
    {
        if k < s.len() && s[k] == sep {
            match p.read(s, k + 1) {
                Some((v, j)) => {
                    let ghost old_acc = acc.deep_view();
                    let ghost vv = v.deep_view();
                    acc.push(v);
                    proof {
                        assert(acc.deep_view() =~= old_acc.push(vv));
                        let (vs, e) = spec_preceded(*p, s@, j as int, sep);
                        assert(spec_preceded(*p, s@, k as int, sep) == (seq![vv] + vs, e));
                        assert(old_acc + (seq![vv] + vs) =~= acc.deep_view() + vs);
                    }
                    k = j;
                },
                None => {
                    proof {
                        assert(acc.deep_view() + seq![] =~= acc.deep_view());
                    }
                    return (acc, k);
                },
            }
        } else {
            proof {
                assert(acc.deep_view() + seq![] =~= acc.deep_view());
            }
            return (acc, k);
        }
    }
}

/// `item *(sep item)`.
pub open spec fn spec_separated<P: Rule>(p: P, s: Seq<u8>, i: int, sep: u8) -> Option<(Seq<<P::Out as DeepView>::V>, int)> {
    match p.spec_read(s, i) {
        Some((v, j)) => if i <= j <= s.len() {
            let (vs, k) = spec_preceded(p, s, j, sep);
            Some((seq![v] + vs, k))
        } else {
            None
        },
        None => None,
    }
}

/// Reads `item *(sep item)` at `i`.
pub fn read_separated<P: Rule>(p: &P, s: &[u8], i: usize, sep: u8) -> (r: Option<(Vec<P::Out>, usize)>)
    requires
        i <= s@.len(),
    ensures
        read_view(r) == spec_separated(*p, s@, i as int, sep),
        r matches Some((vs, j)) ==> i <= j <= s@.len() && vs@.len() > 0,
{
    match p.read(s, i) {
        Some((v, j)) => {
            let ghost vv = v.deep_view();
            let (rest, k) = read_preceded(p, s, j, sep);
            let ghost rv = rest.deep_view();
            let mut all = Vec::new();
            all.push(v);
            let mut rest = rest;
            all.append(&mut rest);
            proof {
                assert(all.deep_view() =~= seq![vv] + rv);
            }
            Some((all, k))
        },
        None => None,
    }
}

/// `"(" item *(SP item) ")"`, or with `empty_ok` also `"(" ")"`.
pub open spec fn spec_paren_list<P: Rule>(p: P, s: Seq<u8>, i: int, empty_ok: bool) -> Option<(Seq<<P::Out as DeepView>::V>, int)> {
    if spec_byte(s, i, LPAREN) {
        match spec_separated(p, s, i + 1, SP) {
            Some((vs, j)) => if spec_byte(s, j, RPAREN) {
                Some((vs, j + 1))
            } else {
                None
            },
            None => if empty_ok && spec_byte(s, i + 1, RPAREN) {
                Some((seq![], i + 2))
            } else {
                None
            },
        }
    } else {
        None
    }
}

/// Reads a parenthesized list at `i`.
pub fn read_paren_list<P: Rule>(p: &P, s: &[u8], i: usize, empty_ok: bool) -> (r: Option<(Vec<P::Out>, usize)>)
    requires
        i <= s@.len(),
    ensures
        read_view(r) == spec_paren_list(*p, s@, i as int, empty_ok),
        r matches Some((vs, j)) ==> i < j <= s@.len() && (!empty_ok ==> vs@.len() > 0),
{
    if byte(s, i, LPAREN) {
        match read_separated(p, s, i + 1, SP) {
            Some((vs, j)) => {
                if byte(s, j, RPAREN) {
                    Some((vs, j + 1))
                } else {
                    None
                }
            },
            None => {
                if empty_ok && byte(s, i + 1, RPAREN) {
                    let v: Vec<P::Out> = Vec::new();
                    proof {
                        assert(v.deep_view() =~= seq![]);
                    }
                    Some((v, i + 2))
                } else {
                    None
                }
            },
        }
    } else {
        None
    }
}

} // verus!

verus! {

/// Written items with a separator between each two.
pub open spec fn join(xs: Seq<Seq<u8>>, sep: Seq<u8>) -> Seq<u8>
    decreases xs.len(),
{
    if xs.len() == 0 {
        seq![]
    } else if xs.len() == 1 {
        xs[0]
    } else {
        join(xs.drop_last(), sep) + sep + xs.last()
    }
}

/// Written items, each after a separator.
pub open spec fn prefixed(xs: Seq<Seq<u8>>, sep: Seq<u8>) -> Seq<u8>
    decreases xs.len(),
{
    if xs.len() == 0 {
        seq![]
    } else {
        prefixed(xs.drop_last(), sep) + sep + xs.last()
    }
}

/// Items each after a separator, seen from the front.
pub proof fn lemma_prefixed_front(xs: Seq<Seq<u8>>, sep: Seq<u8>)
    requires
        xs.len() > 0,
    ensures
        prefixed(xs, sep) == sep + xs[0] + prefixed(xs.drop_first(), sep),
    decreases xs.len(),
{
    if xs.len() == 1 {
        assert(xs.drop_last() =~= seq![]);
        assert(xs.drop_first() =~= seq![]);
        assert(prefixed(xs.drop_last(), sep) == Seq::<u8>::empty());
        assert(xs.last() == xs[0]);
        assert(prefixed(xs, sep) =~= sep + xs[0]);
        assert(sep + xs[0] + seq![] =~= sep + xs[0]);
    } else {
        lemma_prefixed_front(xs.drop_last(), sep);
        assert(xs.drop_last().drop_first() =~= xs.drop_first().drop_last());
        assert(xs.drop_first().last() == xs.last());
        assert(prefixed(xs, sep) =~= sep + xs[0] + prefixed(xs.drop_first(), sep));
    }
}

/// Joined items are the first and then the others, each after the
/// separator.
pub proof fn lemma_join_front(xs: Seq<Seq<u8>>, sep: Seq<u8>)
    requires
        xs.len() > 0,
    ensures
        join(xs, sep) == xs[0] + prefixed(xs.drop_first(), sep),
    decreases xs.len(),
{
    if xs.len() == 1 {
        assert(xs.drop_first() =~= seq![]);
        assert(xs[0] + seq![] =~= xs[0]);
    } else {
        lemma_join_front(xs.drop_last(), sep);
        assert(xs.drop_last().drop_first() =~= xs.drop_first().drop_last());
        assert(xs.drop_first().last() == xs.last());
        assert(join(xs, sep) =~= xs[0] + prefixed(xs.drop_first(), sep));
    }
}

} // verus!

verus! {

/// A way of writing values.
pub trait Writer {
    type In: DeepView;

    /// The bytes a value is written as.
    spec fn spec_write(&self, v: <Self::In as DeepView>::V) -> Seq<u8>;

    /// Writes a value.
    fn write(&self, out: &mut Vec<u8>, v: &Self::In)
        ensures
            final(out)@ == old(out)@ + self.spec_write(v.deep_view()),
    ;
}

/// The bytes each value is written as.
pub open spec fn written<W: Writer>(w: W, vs: Seq<<W::In as DeepView>::V>) -> Seq<Seq<u8>> {
    vs.map_values(|v: <W::In as DeepView>::V| w.spec_write(v))
}

/// Writes items with a separator between each two.
pub fn write_joined<W: Writer>(w: &W, out: &mut Vec<u8>, items: &[W::In], sep: &[u8])
    ensures
        final(out)@ == old(out)@ + join(written(*w, items.deep_view()), sep@),
{
    let ghost start = old(out)@;
    let ghost ws = written(*w, items.deep_view());
    let mut k: usize = 0;
    assert(out@ =~= start + join(ws.subrange(0, 0), sep@));
    while k < items.len()
        invariant
            k <= items@.len(),
            ws == written(*w, items.deep_view()),
            ws.len() == items@.len(),
            out@ == start + join(ws.subrange(0, k as int), sep@),
        decreases items@.len() - k,
    {
        let ghost before = out@;
        if k > 0 {
            crate::chars::put(out, sep);
        }
        w.write(out, &items[k]);
        proof {
            let x = ws.subrange(0, k + 1);
            assert(x.drop_last() =~= ws.subrange(0, k as int));
            assert(items@[k as int].deep_view() == items.deep_view()[k as int]);
            assert(x.last() == ws[k as int]);
            if k == 0 {
                assert(x.len() == 1);
                assert(out@ =~= start + join(x, sep@));
            } else {
                assert(join(x, sep@) == join(x.drop_last(), sep@) + sep@ + x.last());
                assert(out@ =~= start + join(x, sep@));
            }
        }
        k = k + 1;
    }
    assert(ws.subrange(0, k as int) =~= ws);
}

/// Writes items, each after a separator.
pub fn write_prefixed<W: Writer>(w: &W, out: &mut Vec<u8>, items: &[W::In], sep: &[u8])
    ensures
        final(out)@ == old(out)@ + prefixed(written(*w, items.deep_view()), sep@),
{
    let ghost start = old(out)@;
    let ghost ws = written(*w, items.deep_view());
    let mut k: usize = 0;
    assert(out@ =~= start + prefixed(ws.subrange(0, 0), sep@));
    while k < items.len()
        invariant
            k <= items@.len(),
            ws == written(*w, items.deep_view()),
            ws.len() == items@.len(),
            out@ == start + prefixed(ws.subrange(0, k as int), sep@),
        decreases items@.len() - k,
    {
        crate::chars::put(out, sep);
        w.write(out, &items[k]);
        proof {
            let x = ws.subrange(0, k + 1);
            assert(x.drop_last() =~= ws.subrange(0, k as int));
            assert(items@[k as int].deep_view() == items.deep_view()[k as int]);
            assert(x.last() == ws[k as int]);
            assert(prefixed(x, sep@) == prefixed(x.drop_last(), sep@) + sep@ + x.last());
            assert(out@ =~= start + prefixed(x, sep@));
        }
        k = k + 1;
    }
    assert(ws.subrange(0, k as int) =~= ws);
}

} // verus!

verus! {

// ---------------------------------------------------------------------
// Lists read back as they were written.

/// Where `wv` is written at `j` and followed by a byte that `after`
/// admits, the rule reads `v` and ends after it.
pub open spec fn reads_at<P: Rule>(
    p: P,
    s: Seq<u8>,
    j: int,
    v: <P::Out as DeepView>::V,
    wv: Seq<u8>,
    after: spec_fn(u8) -> bool,
) -> bool {
    (0 <= j && j + wv.len() < s.len() && s.subrange(j, j + wv.len()) == wv && after(s[j + wv.len()]))
        ==> p.spec_read(s, j) == Some((v, j + wv.len()))
}

/// Items, each written after a separator at `i`, read back as the items
/// where the rule reads each back, and what follows them is no separator,
/// or one after which the rule reads nothing.
pub proof fn lemma_preceded_round_trip<P: Rule>(
    p: P,
    vs: Seq<<P::Out as DeepView>::V>,
    ws: Seq<Seq<u8>>,
    s: Seq<u8>,
    i: int,
    sep: u8,
    after: spec_fn(u8) -> bool,
)
    requires
        vs.len() == ws.len(),
        forall|k: int, j: int| 0 <= k < vs.len() ==> #[trigger] reads_at(p, s, j, vs[k], ws[k], after),
        after(sep),
        0 <= i,
        i + prefixed(ws, seq![sep]).len() < s.len(),
        s.subrange(i, i + prefixed(ws, seq![sep]).len()) == prefixed(ws, seq![sep]),
        after(s[i + prefixed(ws, seq![sep]).len()]),
        s[i + prefixed(ws, seq![sep]).len()] != sep || p.spec_read(s, i + prefixed(ws, seq![sep]).len() + 1) is None,
    ensures
        spec_preceded(p, s, i, sep) == (vs, i + prefixed(ws, seq![sep]).len()),
    decreases vs.len(),
{
    let pw = prefixed(ws, seq![sep]);
    if vs.len() == 0 {
        assert(pw == Seq::<u8>::empty());
        assert(vs =~= seq![]);
    } else {
        lemma_prefixed_front(ws, seq![sep]);
        let w0 = ws[0];
        let rest_w = ws.drop_first();
        let rest_v = vs.drop_first();
        let p2 = prefixed(rest_w, seq![sep]);
        assert(pw =~= seq![sep] + w0 + p2);
        assert(s[i] == pw[0]);
        let j = i + 1 + w0.len();
        assert(s.subrange(i + 1, j) =~= pw.subrange(1, 1 + w0.len() as int));
        assert(pw.subrange(1, 1 + w0.len() as int) =~= w0);
        if rest_w.len() > 0 {
            lemma_prefixed_front(rest_w, seq![sep]);
            assert(s[j] == pw[j - i]);
            assert(pw[j - i] == p2[0]);
        } else {
            assert(p2 == Seq::<u8>::empty());
        }
        assert(reads_at(p, s, i + 1, vs[0], ws[0], after));
        assert(s.subrange(j, j + p2.len()) =~= pw.subrange(1 + w0.len() as int, pw.len() as int));
        assert(pw.subrange(1 + w0.len() as int, pw.len() as int) =~= p2);
        assert forall|k: int, q: int| 0 <= k < rest_v.len() implies #[trigger] reads_at(p, s, q, rest_v[k], rest_w[k], after) by {
            assert(reads_at(p, s, q, vs[k + 1], ws[k + 1], after));
        }
        lemma_preceded_round_trip(p, rest_v, rest_w, s, j, sep, after);
        assert(seq![vs[0]] + rest_v =~= vs);
    }
}

/// Items joined by a separator at `i` read back as the items where the
/// rule reads each back, and what follows them is no separator, or one
/// after which the rule reads nothing.
pub proof fn lemma_separated_round_trip<P: Rule>(
    p: P,
    vs: Seq<<P::Out as DeepView>::V>,
    ws: Seq<Seq<u8>>,
    s: Seq<u8>,
    i: int,
    sep: u8,
    after: spec_fn(u8) -> bool,
)
    requires
        vs.len() == ws.len(),
        vs.len() > 0,
        forall|k: int, j: int| 0 <= k < vs.len() ==> #[trigger] reads_at(p, s, j, vs[k], ws[k], after),
        after(sep),
        0 <= i,
        i + join(ws, seq![sep]).len() < s.len(),
        s.subrange(i, i + join(ws, seq![sep]).len()) == join(ws, seq![sep]),
        after(s[i + join(ws, seq![sep]).len()]),
        s[i + join(ws, seq![sep]).len()] != sep || p.spec_read(s, i + join(ws, seq![sep]).len() + 1) is None,
    ensures
        spec_separated(p, s, i, sep) == Some((vs, i + join(ws, seq![sep]).len())),
{
    let jw = join(ws, seq![sep]);
    lemma_join_front(ws, seq![sep]);
    let w0 = ws[0];
    let rest_w = ws.drop_first();
    let rest_v = vs.drop_first();
    let p2 = prefixed(rest_w, seq![sep]);
    assert(jw =~= w0 + p2);
    let j = i + w0.len();
    assert(s.subrange(i, j) =~= jw.subrange(0, w0.len() as int));
    assert(jw.subrange(0, w0.len() as int) =~= w0);
    if rest_w.len() > 0 {
        lemma_prefixed_front(rest_w, seq![sep]);
        assert(s[j] == jw[j - i]);
        assert(jw[j - i] == p2[0]);
    } else {
        assert(p2 == Seq::<u8>::empty());
    }
    assert(reads_at(p, s, i, vs[0], ws[0], after));
    assert(s.subrange(j, j + p2.len()) =~= jw.subrange(w0.len() as int, jw.len() as int));
    assert(jw.subrange(w0.len() as int, jw.len() as int) =~= p2);
    assert forall|k: int, q: int| 0 <= k < rest_v.len() implies #[trigger] reads_at(p, s, q, rest_v[k], rest_w[k], after) by {
        assert(reads_at(p, s, q, vs[k + 1], ws[k + 1], after));
    }
    lemma_preceded_round_trip(p, rest_v, rest_w, s, j, sep, after);
    assert(seq![vs[0]] + rest_v =~= vs);
}

/// A parenthesized list written at `i` reads back as its items where
/// the rule reads each back, and, where the list is empty, reads nothing
/// at the closing parenthesis.
pub proof fn lemma_paren_list_round_trip<P: Rule>(
    p: P,
    vs: Seq<<P::Out as DeepView>::V>,
    ws: Seq<Seq<u8>>,
    s: Seq<u8>,
    i: int,
    empty_ok: bool,
    after: spec_fn(u8) -> bool,
)
    requires
        vs.len() == ws.len(),
        vs.len() > 0 || empty_ok,
        vs.len() == 0 ==> p.spec_read(s, i + 1) is None,
        forall|k: int, j: int| 0 <= k < vs.len() ==> #[trigger] reads_at(p, s, j, vs[k], ws[k], after),
        after(SP),
        after(RPAREN),
        0 <= i,
        i + join(ws, seq![SP]).len() + 2 <= s.len(),
        s.subrange(i, i + join(ws, seq![SP]).len() + 2) == seq![LPAREN] + join(ws, seq![SP]) + seq![RPAREN],
    ensures
        spec_paren_list(p, s, i, empty_ok) == Some((vs, i + join(ws, seq![SP]).len() + 2)),
{
    let jw = join(ws, seq![SP]);
    let w = seq![LPAREN] + jw + seq![RPAREN];
    assert(s[i] == w[0]);
    assert(s[i + 1 + jw.len()] == w[1 + jw.len() as int]);
    if vs.len() == 0 {
        assert(jw == Seq::<u8>::empty());
        assert(s[i + 1] == RPAREN);
        assert(vs =~= seq![]);
    } else {
        assert(s.subrange(i + 1, i + 1 + jw.len()) =~= w.subrange(1, 1 + jw.len() as int));
        assert(w.subrange(1, 1 + jw.len() as int) =~= jw);
        lemma_separated_round_trip(p, vs, ws, s, i + 1, SP, after);
    }
}

} // verus!
