//! A message part's `body` structure, as RFC 5524's `BODYPARTSTRUCTURE`
//! carries it: read and written as the tokens it is made of, so that what
//! is read is written back byte for byte.

use vstd::prelude::*;

use crate::chars::{byte, keyword, spec_byte, spec_keyword, LPAREN, RPAREN, SP};
use crate::num::{decimal, read_number, spec_number, write_number};
use crate::rule::read_view;
use crate::strings::{read_string, spec_string, spec_write_str, write_istring, IString, StrV, NIL};

verus! {

/// One token of a `body`: a parenthesis, the space between two fields,
/// `NIL`, a number or a string.
#[derive(Debug, PartialEq, Eq, Hash)]
pub enum BodyToken {
    Open,
    Close,
    Space,
    Nil,
    Number(u32),
    String(IString),
}

/// The model of a [`BodyToken`].
pub enum BodyTokenV {
    Open,
    Close,
    Space,
    Nil,
    Number(u32),
    String(StrV),
}

impl DeepView for BodyToken {
    type V = BodyTokenV;

    open spec fn deep_view(&self) -> BodyTokenV {
        match self {
            BodyToken::Open => BodyTokenV::Open,
            BodyToken::Close => BodyTokenV::Close,
            BodyToken::Space => BodyTokenV::Space,
            BodyToken::Nil => BodyTokenV::Nil,
            BodyToken::Number(n) => BodyTokenV::Number(*n),
            BodyToken::String(v) => BodyTokenV::String(v.deep_view()),
        }
    }
}

/// A `body`: its tokens in order, from its opening parenthesis to the one
/// that closes it. The fields are kept as they stand and not told apart
/// (type, subtype, parameters, extensions).
#[derive(Debug, PartialEq, Eq, Hash)]
pub struct BodyStructure(pub Vec<BodyToken>);

impl DeepView for BodyStructure {
    type V = Seq<BodyTokenV>;

    open spec fn deep_view(&self) -> Seq<BodyTokenV> {
        self.0.deep_view()
    }
}

/// What the last token was, which decides what may follow it.
#[derive(Clone, Copy, Debug, PartialEq, Eq, Structural)]
pub enum BodyPrev {
    /// `(`: a field or another `(` follows.
    Open,
    /// A field: a space or `)` follows.
    Field,
    /// `)`: a space, `)`, or the `(` of a following part.
    Close,
    /// A space: a field or `(` follows.
    Space,
}

/// What each token leaves as the last one.
pub open spec fn prev_after(t: BodyTokenV) -> BodyPrev {
    match t {
        BodyTokenV::Open => BodyPrev::Open,
        BodyTokenV::Close => BodyPrev::Close,
        BodyTokenV::Space => BodyPrev::Space,
        _ => BodyPrev::Field,
    }
}

/// How deep in parentheses a token leaves the reading.
pub open spec fn depth_after(d: nat, t: BodyTokenV) -> nat {
    match t {
        BodyTokenV::Open => d + 1,
        BodyTokenV::Close => (d - 1) as nat,
        _ => d,
    }
}

/// The token at `i`, given the token before it: a field (`(`, `NIL`, a
/// number or a string) after `(` or a space; a space or `)` after a field;
/// a space, `)` or `(` after `)`.
pub open spec fn spec_body_token(s: Seq<u8>, i: int, prev: BodyPrev) -> Option<(BodyTokenV, int)> {
    match prev {
        BodyPrev::Open | BodyPrev::Space => if spec_byte(s, i, LPAREN) {
            Some((BodyTokenV::Open, i + 1))
        } else if spec_keyword(s, i, NIL@) {
            Some((BodyTokenV::Nil, i + 3))
        } else {
            match spec_number(s, i) {
                Some((n, j)) => Some((BodyTokenV::Number(n), j)),
                None => match spec_string(s, i) {
                    Some((v, j)) => Some((BodyTokenV::String(v), j)),
                    None => None,
                },
            }
        },
        BodyPrev::Field => if spec_byte(s, i, SP) {
            Some((BodyTokenV::Space, i + 1))
        } else if spec_byte(s, i, RPAREN) {
            Some((BodyTokenV::Close, i + 1))
        } else {
            None
        },
        BodyPrev::Close => if spec_byte(s, i, SP) {
            Some((BodyTokenV::Space, i + 1))
        } else if spec_byte(s, i, RPAREN) {
            Some((BodyTokenV::Close, i + 1))
        } else if spec_byte(s, i, LPAREN) {
            Some((BodyTokenV::Open, i + 1))
        } else {
            None
        },
    }
}

/// Reads the token at `i`.
fn read_body_token(s: &[u8], i: usize, prev: BodyPrev) -> (r: Option<(BodyToken, usize)>)
    requires
        i <= s@.len(),
    ensures
        read_view(r) == spec_body_token(s@, i as int, prev),
        r matches Some((_, j)) ==> i < j <= s@.len(),
{
    match prev {
        BodyPrev::Open | BodyPrev::Space => {
            if byte(s, i, LPAREN) {
                Some((BodyToken::Open, i + 1))
            } else if keyword(s, i, NIL.as_slice()) {
                Some((BodyToken::Nil, i + 3))
            } else {
                match read_number(s, i) {
                    Some((n, j)) => Some((BodyToken::Number(n), j)),
                    None => match read_string(s, i) {
                        Some((v, j)) => Some((BodyToken::String(v), j)),
                        None => None,
                    },
                }
            }
        },
        BodyPrev::Field => {
            if byte(s, i, SP) {
                Some((BodyToken::Space, i + 1))
            } else if byte(s, i, RPAREN) {
                Some((BodyToken::Close, i + 1))
            } else {
                None
            }
        },
        BodyPrev::Close => {
            if byte(s, i, SP) {
                Some((BodyToken::Space, i + 1))
            } else if byte(s, i, RPAREN) {
                Some((BodyToken::Close, i + 1))
            } else if byte(s, i, LPAREN) {
                Some((BodyToken::Open, i + 1))
            } else {
                None
            }
        },
    }
}

/// The tokens from `i` on, `depth` parentheses deep, after `prev`, up to
/// the `)` that closes the outermost one.
pub open spec fn spec_body_rest(s: Seq<u8>, i: int, depth: nat, prev: BodyPrev) -> Option<(Seq<BodyTokenV>, int)>
    decreases s.len() - i,
{
    if depth == 0 {
        Some((seq![], i))
    } else {
        match spec_body_token(s, i, prev) {
            Some((t, j)) => if i < j <= s.len() {
                match spec_body_rest(s, j, depth_after(depth, t), prev_after(t)) {
                    Some((ts, k)) => Some((seq![t] + ts, k)),
                    None => None,
                }
            } else {
                None
            },
            None => None,
        }
    }
}

/// `body`: `(`, then the tokens up to the `)` that matches it.
pub open spec fn spec_body(s: Seq<u8>, i: int) -> Option<(Seq<BodyTokenV>, int)> {
    if spec_byte(s, i, LPAREN) {
        match spec_body_rest(s, i + 1, 1, BodyPrev::Open) {
            Some((ts, k)) => Some((seq![BodyTokenV::Open] + ts, k)),
            None => None,
        }
    } else {
        None
    }
}

/// A reading with tokens put before what it read.
pub open spec fn prepend(a: Seq<BodyTokenV>, r: Option<(Seq<BodyTokenV>, int)>) -> Option<(Seq<BodyTokenV>, int)> {
    match r {
        Some((ts, k)) => Some((a + ts, k)),
        None => None,
    }
}

/// Reads a `body` at `i`.
pub fn read_body(s: &[u8], i: usize) -> (r: Option<(BodyStructure, usize)>)
    requires
        i <= s@.len(),
    ensures
        read_view(r) == spec_body(s@, i as int),
        r matches Some((_, j)) ==> i < j <= s@.len(),
{
    if !byte(s, i, LPAREN) {
        return None;
    }
    let mut out: Vec<BodyToken> = Vec::new();
    out.push(BodyToken::Open);
    let mut j: usize = i + 1;
    let mut depth: usize = 1;
    let mut prev = BodyPrev::Open;
    assert(out.deep_view() =~= seq![BodyTokenV::Open]);
    while depth > 0
        invariant
            i < j <= s@.len(),
            depth <= j - i,
            spec_byte(s@, i as int, LPAREN),
            spec_body(s@, i as int) == prepend(out.deep_view(), spec_body_rest(s@, j as int, depth as nat, prev)),
        decreases s@.len() - j,
    {
        let ghost old_out = out.deep_view();
        let ghost rest = spec_body_rest(s@, j as int, depth as nat, prev);
        match read_body_token(s, j, prev) {
            Some((t, k)) => {
                let ghost tv = t.deep_view();
                let ghost next = spec_body_rest(s@, k as int, depth_after(depth as nat, tv), prev_after(tv));
                assert(rest == prepend(seq![tv], next));
                let new_depth: usize = match t {
                    BodyToken::Open => depth + 1,
                    BodyToken::Close => depth - 1,
                    _ => depth,
                };
                let new_prev = match t {
                    BodyToken::Open => BodyPrev::Open,
                    BodyToken::Close => BodyPrev::Close,
                    BodyToken::Space => BodyPrev::Space,
                    _ => BodyPrev::Field,
                };
                out.push(t);
                assert(out.deep_view() =~= old_out + seq![tv]);
                assert(prepend(old_out, prepend(seq![tv], next)) == prepend(old_out + seq![tv], next)) by {
                    match next {
                        Some((ts, m)) => {
                            assert(old_out + (seq![tv] + ts) =~= old_out + seq![tv] + ts);
                        },
                        None => {},
                    }
                }
                j = k;
                depth = new_depth;
                prev = new_prev;
            },
            None => {
                return None;
            },
        }
    }
    assert(out.deep_view() + seq![] =~= out.deep_view());
    Some((BodyStructure(out), j))
}

// ---------------------------------------------------------------------
// Writing.

/// How a token is written.
pub open spec fn spec_write_body_token(t: BodyTokenV) -> Seq<u8> {
    match t {
        BodyTokenV::Open => seq![LPAREN],
        BodyTokenV::Close => seq![RPAREN],
        BodyTokenV::Space => seq![SP],
        BodyTokenV::Nil => NIL@,
        BodyTokenV::Number(n) => decimal(n as nat),
        BodyTokenV::String(v) => spec_write_str(v),
    }
}

/// How tokens are written: one after another.
pub open spec fn spec_write_body(ts: Seq<BodyTokenV>) -> Seq<u8>
    decreases ts.len(),
{
    if ts.len() == 0 {
        seq![]
    } else {
        spec_write_body(ts.drop_last()) + spec_write_body_token(ts.last())
    }
}

/// Writes a `body`.
pub fn write_body(out: &mut Vec<u8>, b: &BodyStructure)
    ensures
        final(out)@ == old(out)@ + spec_write_body(b.deep_view()),
{
    let ghost start = old(out)@;
    let ghost ts = b.deep_view();
    let mut k: usize = 0;
    assert(ts.subrange(0, 0) =~= seq![]);
    while k < b.0.len()
        invariant
            k <= b.0@.len(),
            ts == b.deep_view(),
            ts.len() == b.0@.len(),
            out@ == start + spec_write_body(ts.subrange(0, k as int)),
        decreases b.0@.len() - k,
    {
        let ghost before = out@;
        match &b.0[k] {
            BodyToken::Open => out.push(LPAREN),
            BodyToken::Close => out.push(RPAREN),
            BodyToken::Space => out.push(SP),
            BodyToken::Nil => crate::chars::put(out, NIL.as_slice()),
            BodyToken::Number(n) => write_number(out, *n),
            BodyToken::String(v) => write_istring(out, v),
        }
        assert(ts[k as int] == b.0@[k as int].deep_view());
        assert(out@ =~= before + spec_write_body_token(ts[k as int]));
        assert(ts.subrange(0, k + 1).drop_last() =~= ts.subrange(0, k as int));
        k = k + 1;
    }
    assert(ts.subrange(0, k as int) =~= ts);
}

} // verus!

verus! {

// ---------------------------------------------------------------------
// What is written reads back.

/// Whether a token may follow the one that left `prev`, and can be
/// written and read back.
pub open spec fn token_fits(t: BodyTokenV, prev: BodyPrev) -> bool {
    match prev {
        BodyPrev::Open | BodyPrev::Space => match t {
            BodyTokenV::Open | BodyTokenV::Nil | BodyTokenV::Number(_) => true,
            BodyTokenV::String(v) => crate::strings::writable_str(v) && v.kind != crate::strings::StrKind::Atom,
            _ => false,
        },
        BodyPrev::Field => t is Space || t is Close,
        BodyPrev::Close => t is Space || t is Close || t is Open,
    }
}

/// Whether tokens, read from `depth` parentheses deep after `prev`, are
/// what the reader would read: each fits where it stands, and the last
/// closes the outermost parenthesis.
pub open spec fn wf_body_rest(ts: Seq<BodyTokenV>, depth: nat, prev: BodyPrev) -> bool
    decreases ts.len(),
{
    if depth == 0 {
        ts.len() == 0
    } else {
        ts.len() > 0 && token_fits(ts[0], prev) && wf_body_rest(ts.drop_first(), depth_after(depth, ts[0]), prev_after(ts[0]))
    }
}

/// Whether a body can be written and read back: `(`, and then tokens up to
/// the `)` that matches it.
pub open spec fn writable_body(ts: Seq<BodyTokenV>) -> bool {
    ts.len() > 0 && ts[0] == BodyTokenV::Open && wf_body_rest(ts.drop_first(), 1, BodyPrev::Open)
}

/// Tokens written are the first one and then the others.
proof fn lemma_write_body_front(ts: Seq<BodyTokenV>)
    requires
        ts.len() > 0,
    ensures
        spec_write_body(ts) == spec_write_body_token(ts[0]) + spec_write_body(ts.drop_first()),
    decreases ts.len(),
{
    if ts.len() == 1 {
        assert(ts.drop_last() =~= seq![]);
        assert(ts.drop_first() =~= seq![]);
        assert(spec_write_body(ts.drop_last()) == Seq::<u8>::empty());
        assert(spec_write_body(ts) =~= spec_write_body_token(ts[0]) + spec_write_body(ts.drop_first()));
    } else {
        lemma_write_body_front(ts.drop_last());
        assert(ts.drop_last().drop_first() =~= ts.drop_first().drop_last());
        assert(ts.drop_first().last() == ts.last());
        assert(spec_write_body(ts) =~= spec_write_body_token(ts[0]) + spec_write_body(ts.drop_first()));
    }
}

/// A token written at `i`, where it fits after `prev`, and, where it is a
/// number, followed by a space or `)`, reads back.
proof fn lemma_body_token_round_trip(t: BodyTokenV, prev: BodyPrev, s: Seq<u8>, i: int)
    requires
        token_fits(t, prev),
        0 <= i,
        i + spec_write_body_token(t).len() <= s.len(),
        s.subrange(i, i + spec_write_body_token(t).len()) == spec_write_body_token(t),
        t is Number ==> i + spec_write_body_token(t).len() < s.len() && (s[i + spec_write_body_token(t).len()] == SP
            || s[i + spec_write_body_token(t).len()] == RPAREN),
    ensures
        spec_body_token(s, i, prev) == Some((t, i + spec_write_body_token(t).len())),
        spec_write_body_token(t).len() > 0,
{
    let w = spec_write_body_token(t);
    match t {
        BodyTokenV::Open | BodyTokenV::Close | BodyTokenV::Space => {
            assert(s[i] == s.subrange(i, i + 1)[0]);
        },
        BodyTokenV::Nil => {
            assert(s[i] == s.subrange(i, i + 3)[0]);
            crate::chars::lemma_keyword_at(s, i, NIL@);
        },
        BodyTokenV::Number(n) => {
            crate::num::lemma_decimal(n as nat);
            assert(s[i] == w[0]);
            crate::chars::lemma_not_keyword(s, i, NIL@, 0);
            crate::num::lemma_number_round_trip(n, s, i);
        },
        BodyTokenV::String(v) => {
            crate::strings::lemma_string_round_trip(v, s, i);
            crate::strings::lemma_string_starts(v);
            assert(s[i] == w[0]);
            crate::chars::lemma_not_keyword(s, i, NIL@, 0);
            assert(crate::chars::scan_end(s, i, crate::chars::ByteClass::Digit) == i);
        },
    }
}

/// Tokens written at `i`, read from `depth` parentheses deep after `prev`,
/// read back.
proof fn lemma_body_rest_round_trip(ts: Seq<BodyTokenV>, depth: nat, prev: BodyPrev, s: Seq<u8>, i: int)
    requires
        wf_body_rest(ts, depth, prev),
        0 <= i,
        i + spec_write_body(ts).len() <= s.len(),
        s.subrange(i, i + spec_write_body(ts).len()) == spec_write_body(ts),
    ensures
        spec_body_rest(s, i, depth, prev) == Some((ts, i + spec_write_body(ts).len())),
    decreases ts.len(),
{
    if depth == 0 {
        assert(ts =~= seq![]);
    } else {
        let t = ts[0];
        let rest = ts.drop_first();
        lemma_write_body_front(ts);
        let w = spec_write_body(ts);
        let wt = spec_write_body_token(t);
        let wr = spec_write_body(rest);
        let j = i + wt.len();
        crate::chars::lemma_part(s, i, w, 0, wt.len() as int);
        assert(w.subrange(0, wt.len() as int) =~= wt);
        crate::chars::lemma_part(s, i, w, wt.len() as int, wr.len() as int);
        assert(w.subrange(wt.len() as int, w.len() as int) =~= wr);
        if t is Number {
            assert(depth_after(depth, t) == depth && prev_after(t) == BodyPrev::Field);
            assert(wf_body_rest(rest, depth, BodyPrev::Field));
            assert(rest.len() > 0);
            assert(token_fits(rest[0], BodyPrev::Field));
            lemma_write_body_front(rest);
            assert(s[j] == s.subrange(j, j + wr.len())[0]);
            assert(s[j] == wr[0]);
            assert(wr[0] == spec_write_body_token(rest[0])[0]);
        }
        lemma_body_token_round_trip(t, prev, s, i);
        lemma_body_rest_round_trip(rest, depth_after(depth, t), prev_after(t), s, j);
        assert(seq![t] + rest =~= ts);
    }
}

/// A body that can be written, written at `i`, reads back.
pub proof fn lemma_body_round_trip(ts: Seq<BodyTokenV>, s: Seq<u8>, i: int)
    requires
        writable_body(ts),
        0 <= i,
        i + spec_write_body(ts).len() <= s.len(),
        s.subrange(i, i + spec_write_body(ts).len()) == spec_write_body(ts),
    ensures
        spec_body(s, i) == Some((ts, i + spec_write_body(ts).len())),
{
    lemma_write_body_front(ts);
    let w = spec_write_body(ts);
    let wr = spec_write_body(ts.drop_first());
    assert(s[i] == w[0]);
    crate::chars::lemma_part(s, i, w, 1, wr.len() as int);
    assert(w.subrange(1, w.len() as int) =~= wr);
    lemma_body_rest_round_trip(ts.drop_first(), 1, BodyPrev::Open, s, i + 1);
    assert(seq![BodyTokenV::Open] + ts.drop_first() =~= ts);
}

} // verus!
