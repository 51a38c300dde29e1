//! What a search is asked to return (RFC 4731, RFC 5267, RFC 5182), and
//! what an `ESEARCH` response carries.

use vstd::prelude::*;

use crate::chars::{byte, keyword, put, spec_byte, spec_keyword, DQUOTE, LPAREN, RPAREN, SP};
use crate::num::{decimal, read_number, spec_number, spec_nz_number, write_number, NzNumber, NzNumberRule};
use crate::rule::{prefixed, read_paren_list, read_preceded, read_view, spec_paren_list, spec_preceded, Rule};
use crate::search::alt;
use crate::strings::{read_tag, spec_tag, Tag, NIL};
use crate::uidplus::{read_uid_set, spec_uid_set, spec_write_uid_set, write_uid_set, UidElementV, UidSet, COLON};

verus! {

broadcast use NzNumber::lemma_view_is_value;

/// `MIN`
pub const MIN: [u8; 3] = [77, 73, 78];
/// `MAX`
pub const MAX: [u8; 3] = [77, 65, 88];
/// `COUNT`
pub const COUNT: [u8; 5] = [67, 79, 85, 78, 84];
/// `PARTIAL `
pub const PARTIAL_SP: [u8; 8] = [80, 65, 82, 84, 73, 65, 76, 32];
/// `UPDATE`
pub const UPDATE: [u8; 6] = [85, 80, 68, 65, 84, 69];
/// `CONTEXT`
pub const CONTEXT: [u8; 7] = [67, 79, 78, 84, 69, 88, 84];
/// `SAVE`
pub const SAVE: [u8; 4] = [83, 65, 86, 69];
/// `RETURN `
pub const RETURN_SP: [u8; 7] = [82, 69, 84, 85, 82, 78, 32];
/// ` RETURN `
pub const SP_RETURN_SP: [u8; 8] = [32, 82, 69, 84, 85, 82, 78, 32];
/// `MIN `
pub const MIN_SP: [u8; 4] = [77, 73, 78, 32];
/// `MAX `
pub const MAX_SP: [u8; 4] = [77, 65, 88, 32];
/// `ALL `
pub const ALL_SP: [u8; 4] = [65, 76, 76, 32];
/// `COUNT `
pub const COUNT_SP: [u8; 6] = [67, 79, 85, 78, 84, 32];
/// `PARTIAL (`
pub const PARTIAL_SP_LPAREN: [u8; 9] = [80, 65, 82, 84, 73, 65, 76, 32, 40];
/// `ADDTO (`
pub const ADDTO_SP_LPAREN: [u8; 7] = [65, 68, 68, 84, 79, 32, 40];
/// `REMOVEFROM (`
pub const REMOVEFROM_SP_LPAREN: [u8; 12] = [82, 69, 77, 79, 86, 69, 70, 82, 79, 77, 32, 40];
/// `ESEARCH`
pub const ESEARCH: [u8; 7] = [69, 83, 69, 65, 82, 67, 72];
/// ` (TAG `
pub const SP_LPAREN_TAG_SP: [u8; 6] = [32, 40, 84, 65, 71, 32];
/// ` UID`
pub const SP_UID: [u8; 4] = [32, 85, 73, 68];
/// ` CHARSET `
pub const SP_CHARSET_SP: [u8; 9] = [32, 67, 72, 65, 82, 83, 69, 84, 32];
/// `SEARCH`
pub const SEARCH: [u8; 6] = [83, 69, 65, 82, 67, 72];

/// A slice of a search result, counted from one (RFC 5267 Section 4.4):
/// `partial-range = nz-number ":" nz-number`. Neither end may be `*`.
#[derive(Clone, Copy, Debug, PartialEq, Eq, Hash)]
pub struct PartialRange {
    /// The first position wanted, from one.
    pub from: NzNumber,
    /// The last position wanted, inclusive.
    pub to: NzNumber,
}

impl DeepView for PartialRange {
    type V = (u32, u32);

    open spec fn deep_view(&self) -> (u32, u32) {
        (self.from.deep_view(), self.to.deep_view())
    }
}

impl PartialRange {
    /// The range with its ends in order, whichever way they were written:
    /// `4:2` is `2:4`.
    pub fn new(a: NzNumber, b: NzNumber) -> (r: PartialRange)
        ensures
            r.from.value() == if a.value() <= b.value() { a.value() } else { b.value() },
            r.to.value() == if a.value() <= b.value() { b.value() } else { a.value() },
    {
        if a.get() <= b.get() {
            PartialRange { from: a, to: b }
        } else {
            PartialRange { from: b, to: a }
        }
    }

    /// How many positions it covers.
    pub fn count(&self) -> (r: u32)
        requires
            self.from.value() <= self.to.value(),
        ensures
            r == self.to.value() - self.from.value() + 1,
    {
        self.to.get() - self.from.get() + 1
    }
}

/// What a `SEARCH` is asked to return rather than the whole list of
/// matches.
#[derive(Clone, Copy, Debug, PartialEq, Eq, Hash)]
pub enum SearchReturnOption {
    /// The lowest number that matched.
    Min,
    /// The highest number that matched.
    Max,
    /// Every match, as a set.
    All,
    /// How many matched.
    Count,
    /// `PARTIAL <range>`: only this slice of the result.
    Partial(PartialRange),
    /// `UPDATE`: keep the search alive and report changes.
    Update,
    /// `CONTEXT`: remember the result.
    Context,
    /// `SAVE` (RFC 5182): keep the result as `$`.
    Save,
}

/// The model of a [`SearchReturnOption`].
pub enum SearchReturnOptionV {
    Min,
    Max,
    All,
    Count,
    Partial((u32, u32)),
    Update,
    Context,
    Save,
}

impl DeepView for SearchReturnOption {
    type V = SearchReturnOptionV;

    open spec fn deep_view(&self) -> SearchReturnOptionV {
        match self {
            SearchReturnOption::Min => SearchReturnOptionV::Min,
            SearchReturnOption::Max => SearchReturnOptionV::Max,
            SearchReturnOption::All => SearchReturnOptionV::All,
            SearchReturnOption::Count => SearchReturnOptionV::Count,
            SearchReturnOption::Partial(r) => SearchReturnOptionV::Partial(r.deep_view()),
            SearchReturnOption::Update => SearchReturnOptionV::Update,
            SearchReturnOption::Context => SearchReturnOptionV::Context,
            SearchReturnOption::Save => SearchReturnOptionV::Save,
        }
    }
}

impl SearchReturnOption {
    /// The option's name.
    pub fn as_bytes(&self) -> (r: &'static [u8])
        ensures
            r@ == spec_option_name(self.deep_view()),
    {
        match self {
            SearchReturnOption::Min => MIN.as_slice(),
            SearchReturnOption::Max => MAX.as_slice(),
            SearchReturnOption::All => crate::search::ALL.as_slice(),
            SearchReturnOption::Count => COUNT.as_slice(),
            SearchReturnOption::Partial(_) => PARTIAL.as_slice(),
            SearchReturnOption::Update => UPDATE.as_slice(),
            SearchReturnOption::Context => CONTEXT.as_slice(),
            SearchReturnOption::Save => SAVE.as_slice(),
        }
    }
}

/// `PARTIAL`
pub const PARTIAL: [u8; 7] = [80, 65, 82, 84, 73, 65, 76];

/// The name of an option.
pub open spec fn spec_option_name(o: SearchReturnOptionV) -> Seq<u8> {
    match o {
        SearchReturnOptionV::Min => MIN@,
        SearchReturnOptionV::Max => MAX@,
        SearchReturnOptionV::All => crate::search::ALL@,
        SearchReturnOptionV::Count => COUNT@,
        SearchReturnOptionV::Partial(_) => PARTIAL@,
        SearchReturnOptionV::Update => UPDATE@,
        SearchReturnOptionV::Context => CONTEXT@,
        SearchReturnOptionV::Save => SAVE@,
    }
}

/// `partial-range = nz-number ":" nz-number`, its ends put in order.
pub open spec fn spec_partial_range(s: Seq<u8>, i: int) -> Option<((u32, u32), int)> {
    match spec_nz_number(s, i) {
        Some((a, j)) => if spec_byte(s, j, COLON) {
            match spec_nz_number(s, j + 1) {
                Some((b, k)) => Some((if a <= b { (a, b) } else { (b, a) }, k)),
                None => None,
            }
        } else {
            None
        },
        None => None,
    }
}

/// Reads a `partial-range` at `i`.
pub fn read_partial_range(s: &[u8], i: usize) -> (r: Option<(PartialRange, usize)>)
    requires
        i <= s@.len(),
    ensures
        read_view(r) == spec_partial_range(s@, i as int),
        r matches Some((_, j)) ==> i < j <= s@.len(),
{
    match NzNumberRule.read(s, i) {
        Some((a, j)) => if byte(s, j, COLON) {
            match NzNumberRule.read(s, j + 1) {
                Some((b, k)) => Some((PartialRange::new(a, b), k)),
                None => None,
            }
        } else {
            None
        },
        None => None,
    }
}

/// `search-return-opt`: an option this crate cannot answer is not read,
/// so that the caller can refuse it as RFC 4731 Section 3.1 asks.
pub open spec fn spec_search_return_opt(s: Seq<u8>, i: int) -> Option<(SearchReturnOptionV, int)> {
    let r = crate::search::flag(s, i, MIN@, SearchReturnOptionV::Min);
    let r = alt(r, crate::search::flag(s, i, MAX@, SearchReturnOptionV::Max));
    let r = alt(r, crate::search::flag(s, i, crate::search::ALL@, SearchReturnOptionV::All));
    let r = alt(r, crate::search::flag(s, i, COUNT@, SearchReturnOptionV::Count));
    let r = alt(r, if spec_keyword(s, i, PARTIAL_SP@) {
        match spec_partial_range(s, i + 8) {
            Some((p, j)) => Some((SearchReturnOptionV::Partial(p), j)),
            None => None,
        }
    } else {
        None
    });
    let r = alt(r, crate::search::flag(s, i, UPDATE@, SearchReturnOptionV::Update));
    let r = alt(r, crate::search::flag(s, i, CONTEXT@, SearchReturnOptionV::Context));
    alt(r, crate::search::flag(s, i, SAVE@, SearchReturnOptionV::Save))
}

/// The rule `search-return-opt`.
pub struct SearchReturnOptionRule;

impl Rule for SearchReturnOptionRule {
    type Out = SearchReturnOption;

    open spec fn spec_read(&self, s: Seq<u8>, i: int) -> Option<(SearchReturnOptionV, int)> {
        spec_search_return_opt(s, i)
    }

    fn read(&self, s: &[u8], i: usize) -> (r: Option<(SearchReturnOption, usize)>) {
        let min = MIN;
        if keyword(s, i, min.as_slice()) {
            return Some((SearchReturnOption::Min, i + 3));
        }
        let max = MAX;
        if keyword(s, i, max.as_slice()) {
            return Some((SearchReturnOption::Max, i + 3));
        }
        let all = crate::search::ALL;
        if keyword(s, i, all.as_slice()) {
            return Some((SearchReturnOption::All, i + 3));
        }
        let count = COUNT;
        if keyword(s, i, count.as_slice()) {
            return Some((SearchReturnOption::Count, i + 5));
        }
        let partial = PARTIAL_SP;
        if keyword(s, i, partial.as_slice()) {
            if let Some((p, j)) = read_partial_range(s, i + 8) {
                return Some((SearchReturnOption::Partial(p), j));
            }
        }
        let update = UPDATE;
        if keyword(s, i, update.as_slice()) {
            return Some((SearchReturnOption::Update, i + 6));
        }
        let context = CONTEXT;
        if keyword(s, i, context.as_slice()) {
            return Some((SearchReturnOption::Context, i + 7));
        }
        let save = SAVE;
        if keyword(s, i, save.as_slice()) {
            return Some((SearchReturnOption::Save, i + 4));
        }
        None
    }
}

/// `search-return-opts = SP "RETURN" SP "(" [search-return-opt *(SP
/// search-return-opt)] ")"`. An empty list is not the same as no list.
pub open spec fn spec_search_return_opts(s: Seq<u8>, i: int) -> Option<(Seq<SearchReturnOptionV>, int)> {
    if spec_keyword(s, i, SP_RETURN_SP@) {
        spec_paren_list(SearchReturnOptionRule, s, i + 8, true)
    } else {
        None
    }
}

/// Reads `search-return-opts` at `i`.
pub fn read_search_return_opts(s: &[u8], i: usize) -> (r: Option<(Vec<SearchReturnOption>, usize)>)
    requires
        i <= s@.len(),
    ensures
        read_view(r) == spec_search_return_opts(s@, i as int),
        r matches Some((_, j)) ==> i < j <= s@.len(),
{
    let kw = SP_RETURN_SP;
    if keyword(s, i, kw.as_slice()) {
        read_paren_list(&SearchReturnOptionRule, s, i + 8, true)
    } else {
        None
    }
}

/// How an option is written.
pub open spec fn spec_write_search_return_opt(o: SearchReturnOptionV) -> Seq<u8> {
    match o {
        SearchReturnOptionV::Partial((a, b)) => PARTIAL_SP@ + decimal(a as nat) + seq![COLON] + decimal(b as nat),
        _ => spec_option_name(o),
    }
}

/// Writes an option.
pub fn write_search_return_opt(out: &mut Vec<u8>, o: &SearchReturnOption)
    ensures
        final(out)@ == old(out)@ + spec_write_search_return_opt(o.deep_view()),
{
    let ghost start = old(out)@;
    match o {
        SearchReturnOption::Partial(p) => {
            let w = PARTIAL_SP;
            put(out, w.as_slice());
            write_number(out, p.from.get());
            out.push(COLON);
            write_number(out, p.to.get());
            assert(out@ =~= start + spec_write_search_return_opt(o.deep_view()));
        },
        _ => put(out, o.as_bytes()),
    }
}

/// How a list of options is written: `" RETURN ("`, the options
/// separated by spaces, `")"`.
pub open spec fn spec_write_search_return_opts(os: Seq<SearchReturnOptionV>) -> Seq<u8> {
    SP_RETURN_SP@ + seq![LPAREN] + crate::rule::join(
        os.map_values(|o: SearchReturnOptionV| spec_write_search_return_opt(o)),
        seq![SP],
    ) + seq![RPAREN]
}

/// Writes a list of options.
pub fn write_search_return_opts(out: &mut Vec<u8>, os: &Vec<SearchReturnOption>)
    ensures
        final(out)@ == old(out)@ + spec_write_search_return_opts(os.deep_view()),
{
    let ghost start = old(out)@;
    let ghost ws = os.deep_view().map_values(|o: SearchReturnOptionV| spec_write_search_return_opt(o));
    let w = SP_RETURN_SP;
    put(out, w.as_slice());
    out.push(LPAREN);
    let ghost mid = out@;
    let mut k: usize = 0;
    while k < os.len()
        invariant
            k <= os@.len(),
            ws == os.deep_view().map_values(|o: SearchReturnOptionV| spec_write_search_return_opt(o)),
            out@ == mid + crate::rule::join(ws.subrange(0, k as int), seq![SP]),
        decreases os@.len() - k,
    {
        if k > 0 {
            out.push(SP);
        }
        write_search_return_opt(out, &os[k]);
        proof {
            let w = ws.subrange(0, k + 1);
            assert(w.drop_last() =~= ws.subrange(0, k as int));
            assert(os@[k as int].deep_view() == os.deep_view()[k as int]);
            if k == 0 {
                assert(crate::rule::join(ws.subrange(0, 0), seq![SP]) == Seq::<u8>::empty());
            }
            assert(out@ =~= mid + crate::rule::join(w, seq![SP]));
        }
        k = k + 1;
    }
    out.push(RPAREN);
    assert(ws.subrange(0, k as int) =~= ws);
    assert(out@ =~= start + spec_write_search_return_opts(os.deep_view()));
}

/// One datum of an `ESEARCH` response.
#[derive(Debug, PartialEq, Eq, Hash)]
pub enum SearchReturnData {
    /// `MIN`
    Min(NzNumber),
    /// `MAX`
    Max(NzNumber),
    /// `ALL`, never empty, in the order of the answer.
    All(UidSet),
    /// `COUNT`, sent as zero when nothing matched.
    Count(u32),
    /// `PARTIAL (<range> <results>)`; `None` for the `NIL` of a range past
    /// the end of the result.
    Partial(PartialRange, Option<UidSet>),
    /// `ADDTO (<context position> <set>)`
    AddTo(u32, UidSet),
    /// `REMOVEFROM (<context position> <set>)`
    RemoveFrom(u32, UidSet),
}

/// The model of a [`SearchReturnData`].
pub enum SearchReturnDataV {
    Min(u32),
    Max(u32),
    All(Seq<UidElementV>),
    Count(u32),
    Partial((u32, u32), Option<Seq<UidElementV>>),
    AddTo(u32, Seq<UidElementV>),
    RemoveFrom(u32, Seq<UidElementV>),
}

impl DeepView for SearchReturnData {
    type V = SearchReturnDataV;

    open spec fn deep_view(&self) -> SearchReturnDataV {
        match self {
            SearchReturnData::Min(n) => SearchReturnDataV::Min(n.deep_view()),
            SearchReturnData::Max(n) => SearchReturnDataV::Max(n.deep_view()),
            SearchReturnData::All(u) => SearchReturnDataV::All(u.deep_view()),
            SearchReturnData::Count(n) => SearchReturnDataV::Count(*n),
            SearchReturnData::Partial(r, u) => SearchReturnDataV::Partial(r.deep_view(), u.deep_view()),
            SearchReturnData::AddTo(n, u) => SearchReturnDataV::AddTo(*n, u.deep_view()),
            SearchReturnData::RemoveFrom(n, u) => SearchReturnDataV::RemoveFrom(*n, u.deep_view()),
        }
    }
}

/// `word SP "(" context-position SP uid-set ")"`, for `ADDTO` and
/// `REMOVEFROM`; the position may be zero.
pub open spec fn spec_context_update(s: Seq<u8>, i: int, word: Seq<u8>) -> Option<((u32, Seq<UidElementV>), int)> {
    if spec_keyword(s, i, word) {
        match spec_number(s, i + word.len()) {
            Some((n, j)) => if spec_byte(s, j, SP) {
                match spec_uid_set(s, j + 1) {
                    Some((u, k)) => if spec_byte(s, k, RPAREN) {
                        Some(((n, u), k + 1))
                    } else {
                        None
                    },
                    None => None,
                }
            } else {
                None
            },
            None => None,
        }
    } else {
        None
    }
}

fn read_context_update(s: &[u8], i: usize, word: &[u8]) -> (r: Option<((u32, UidSet), usize)>)
    requires
        i <= s@.len(),
    ensures
        read_view(r) == spec_context_update(s@, i as int, word@),
        r matches Some((_, j)) ==> i < j <= s@.len(),
{
    if keyword(s, i, word) {
        match read_number(s, i + word.len()) {
            Some((n, j)) => if byte(s, j, SP) {
                match read_uid_set(s, j + 1) {
                    Some((u, k)) => if byte(s, k, RPAREN) {
                        Some(((n, u), k + 1))
                    } else {
                        None
                    },
                    None => None,
                }
            } else {
                None
            },
            None => None,
        }
    } else {
        None
    }
}

/// `"PARTIAL" SP "(" partial-range SP (uid-set / NIL) ")"`
pub open spec fn spec_partial_data(s: Seq<u8>, i: int) -> Option<(SearchReturnDataV, int)> {
    if spec_keyword(s, i, PARTIAL_SP_LPAREN@) {
        match spec_partial_range(s, i + 9) {
            Some((p, j)) => if spec_byte(s, j, SP) {
                let set = match spec_uid_set(s, j + 1) {
                    Some((u, k)) => Some((Some(u), k)),
                    None => if spec_keyword(s, j + 1, NIL@) {
                        Some((None, j + 4))
                    } else {
                        None
                    },
                };
                match set {
                    Some((u, k)) => if spec_byte(s, k, RPAREN) {
                        Some((SearchReturnDataV::Partial(p, u), k + 1))
                    } else {
                        None
                    },
                    None => None,
                }
            } else {
                None
            },
            None => None,
        }
    } else {
        None
    }
}

fn read_partial_data(s: &[u8], i: usize) -> (r: Option<(SearchReturnData, usize)>)
    requires
        i <= s@.len(),
    ensures
        read_view(r) == spec_partial_data(s@, i as int),
        r matches Some((_, j)) ==> i < j <= s@.len(),
{
    let kw = PARTIAL_SP_LPAREN;
    if !keyword(s, i, kw.as_slice()) {
        return None;
    }
    let (p, j) = match read_partial_range(s, i + 9) {
        Some(x) => x,
        None => return None,
    };
    if !byte(s, j, SP) {
        return None;
    }
    let nil = NIL;
    let (u, k) = match read_uid_set(s, j + 1) {
        Some((u, k)) => (Some(u), k),
        None => if keyword(s, j + 1, nil.as_slice()) {
            (None, j + 4)
        } else {
            return None;
        },
    };
    if byte(s, k, RPAREN) {
        Some((SearchReturnData::Partial(p, u), k + 1))
    } else {
        None
    }
}

/// `search-return-data`, in the order the forms are tried.
pub open spec fn spec_search_return_data(s: Seq<u8>, i: int) -> Option<(SearchReturnDataV, int)> {
    let r = crate::search::map_value(
        crate::search::after_keyword(s, i, MIN_SP@, |j: int| spec_nz_number(s, j)),
        |n: u32| SearchReturnDataV::Min(n),
    );
    let r = alt(r, crate::search::map_value(
        crate::search::after_keyword(s, i, MAX_SP@, |j: int| spec_nz_number(s, j)),
        |n: u32| SearchReturnDataV::Max(n),
    ));
    let r = alt(r, crate::search::map_value(
        crate::search::after_keyword(s, i, ALL_SP@, |j: int| spec_uid_set(s, j)),
        |u: Seq<UidElementV>| SearchReturnDataV::All(u),
    ));
    let r = alt(r, crate::search::map_value(
        crate::search::after_keyword(s, i, COUNT_SP@, |j: int| spec_number(s, j)),
        |n: u32| SearchReturnDataV::Count(n),
    ));
    let r = alt(r, spec_partial_data(s, i));
    let r = alt(r, crate::search::map_value(
        spec_context_update(s, i, ADDTO_SP_LPAREN@),
        |x: (u32, Seq<UidElementV>)| SearchReturnDataV::AddTo(x.0, x.1),
    ));
    alt(r, crate::search::map_value(
        spec_context_update(s, i, REMOVEFROM_SP_LPAREN@),
        |x: (u32, Seq<UidElementV>)| SearchReturnDataV::RemoveFrom(x.0, x.1),
    ))
}

/// The rule `search-return-data`.
pub struct SearchReturnDataRule;

impl Rule for SearchReturnDataRule {
    type Out = SearchReturnData;

    open spec fn spec_read(&self, s: Seq<u8>, i: int) -> Option<(SearchReturnDataV, int)> {
        spec_search_return_data(s, i)
    }

    fn read(&self, s: &[u8], i: usize) -> (r: Option<(SearchReturnData, usize)>) {
        let min = MIN_SP;
        if keyword(s, i, min.as_slice()) {
            if let Some((n, j)) = NzNumberRule.read(s, i + 4) {
                return Some((SearchReturnData::Min(n), j));
            }
        }
        let max = MAX_SP;
        if keyword(s, i, max.as_slice()) {
            if let Some((n, j)) = NzNumberRule.read(s, i + 4) {
                return Some((SearchReturnData::Max(n), j));
            }
        }
        let all = ALL_SP;
        if keyword(s, i, all.as_slice()) {
            if let Some((u, j)) = read_uid_set(s, i + 4) {
                return Some((SearchReturnData::All(u), j));
            }
        }
        let count = COUNT_SP;
        if keyword(s, i, count.as_slice()) {
            if let Some((n, j)) = read_number(s, i + 6) {
                return Some((SearchReturnData::Count(n), j));
            }
        }
        if let Some(r) = read_partial_data(s, i) {
            return Some(r);
        }
        let addto = ADDTO_SP_LPAREN;
        if let Some(((n, u), j)) = read_context_update(s, i, addto.as_slice()) {
            return Some((SearchReturnData::AddTo(n, u), j));
        }
        let removefrom = REMOVEFROM_SP_LPAREN;
        if let Some(((n, u), j)) = read_context_update(s, i, removefrom.as_slice()) {
            return Some((SearchReturnData::RemoveFrom(n, u), j));
        }
        None
    }
}


/// `search-return-data`, as written.
pub open spec fn spec_write_search_return_data(d: SearchReturnDataV) -> Seq<u8> {
    match d {
        SearchReturnDataV::Min(n) => MIN_SP@ + decimal(n as nat),
        SearchReturnDataV::Max(n) => MAX_SP@ + decimal(n as nat),
        SearchReturnDataV::All(u) => ALL_SP@ + spec_write_uid_set(u),
        SearchReturnDataV::Count(n) => COUNT_SP@ + decimal(n as nat),
        SearchReturnDataV::Partial((a, b), u) => PARTIAL_SP_LPAREN@ + decimal(a as nat) + seq![COLON] + decimal(b as nat) + seq![SP] + match u {
            Some(u) => spec_write_uid_set(u),
            None => NIL@,
        } + seq![RPAREN],
        SearchReturnDataV::AddTo(n, u) => ADDTO_SP_LPAREN@ + decimal(n as nat) + seq![SP] + spec_write_uid_set(u) + seq![RPAREN],
        SearchReturnDataV::RemoveFrom(n, u) => REMOVEFROM_SP_LPAREN@ + decimal(n as nat) + seq![SP] + spec_write_uid_set(u) + seq![RPAREN],
    }
}

/// Writes a `search-return-data`.
pub fn write_search_return_data(out: &mut Vec<u8>, d: &SearchReturnData)
    ensures
        final(out)@ == old(out)@ + spec_write_search_return_data(d.deep_view()),
{
    let ghost start = old(out)@;
    match d {
        SearchReturnData::Min(n) => {
            let w = MIN_SP;
            put(out, w.as_slice());
            write_number(out, n.get());
        },
        SearchReturnData::Max(n) => {
            let w = MAX_SP;
            put(out, w.as_slice());
            write_number(out, n.get());
        },
        SearchReturnData::All(u) => {
            let w = ALL_SP;
            put(out, w.as_slice());
            write_uid_set(out, u);
        },
        SearchReturnData::Count(n) => {
            let w = COUNT_SP;
            put(out, w.as_slice());
            write_number(out, *n);
        },
        SearchReturnData::Partial(r, u) => {
            let w = PARTIAL_SP_LPAREN;
            put(out, w.as_slice());
            write_number(out, r.from.get());
            out.push(COLON);
            write_number(out, r.to.get());
            out.push(SP);
            match u {
                Some(u) => write_uid_set(out, u),
                None => {
                    let nil = NIL;
                    put(out, nil.as_slice());
                },
            }
            out.push(RPAREN);
            assert(out@ =~= start + spec_write_search_return_data(d.deep_view()));
        },
        SearchReturnData::AddTo(n, u) => {
            let w = ADDTO_SP_LPAREN;
            put(out, w.as_slice());
            write_number(out, *n);
            out.push(SP);
            write_uid_set(out, u);
            out.push(RPAREN);
            assert(out@ =~= start + spec_write_search_return_data(d.deep_view()));
        },
        SearchReturnData::RemoveFrom(n, u) => {
            let w = REMOVEFROM_SP_LPAREN;
            put(out, w.as_slice());
            write_number(out, *n);
            out.push(SP);
            write_uid_set(out, u);
            out.push(RPAREN);
            assert(out@ =~= start + spec_write_search_return_data(d.deep_view()));
        },
    }
}

/// The `ESEARCH` response (RFC 4731 Section 3.2).
#[derive(Debug, PartialEq, Eq, Hash)]
pub struct EsearchResponse {
    /// The tag of the command this answers.
    pub correlator: Option<Tag>,
    /// The numbers are UIDs rather than message sequence numbers.
    pub uid: bool,
    /// What was asked for, in the order to send it.
    pub items: Vec<SearchReturnData>,
}

/// The model of an [`EsearchResponse`].
pub struct EsearchResponseV {
    pub correlator: Option<Seq<u8>>,
    pub uid: bool,
    pub items: Seq<SearchReturnDataV>,
}

impl DeepView for EsearchResponse {
    type V = EsearchResponseV;

    open spec fn deep_view(&self) -> EsearchResponseV {
        EsearchResponseV {
            correlator: self.correlator.deep_view(),
            uid: self.uid,
            items: self.items.deep_view(),
        }
    }
}

/// `search-correlator = SP "(" "TAG" SP tag-string ")"`, the tag quoted
/// or not.
pub open spec fn spec_correlator(s: Seq<u8>, i: int) -> Option<(Seq<u8>, int)> {
    if spec_keyword(s, i, SP_LPAREN_TAG_SP@) {
        let j = i + 6;
        let t = if spec_byte(s, j, DQUOTE) {
            match spec_tag(s, j + 1) {
                Some((t, k)) => if spec_byte(s, k, DQUOTE) {
                    Some((t, k + 1))
                } else {
                    None
                },
                None => None,
            }
        } else {
            None
        };
        let t = alt(t, spec_tag(s, j));
        match t {
            Some((t, k)) => if spec_byte(s, k, RPAREN) {
                Some((t, k + 1))
            } else {
                None
            },
            None => None,
        }
    } else {
        None
    }
}

fn read_correlator(s: &[u8], i: usize) -> (r: Option<(Tag, usize)>)
    requires
        i <= s@.len(),
    ensures
        read_view(r) == spec_correlator(s@, i as int),
        r matches Some((_, j)) ==> i < j <= s@.len(),
{
    let kw = SP_LPAREN_TAG_SP;
    if !keyword(s, i, kw.as_slice()) {
        return None;
    }
    let j = i + 6;
    let mut t: Option<(Tag, usize)> = None;
    if byte(s, j, DQUOTE) {
        if let Some((tag, k)) = read_tag(s, j + 1) {
            if byte(s, k, DQUOTE) {
                t = Some((tag, k + 1));
            }
        }
    }
    if t.is_none() {
        t = read_tag(s, j);
    }
    match t {
        Some((tag, k)) => if byte(s, k, RPAREN) {
            Some((tag, k + 1))
        } else {
            None
        },
        None => None,
    }
}

/// `esearch-response = "ESEARCH" [search-correlator] [SP "UID"]
/// *(SP search-return-data)`
pub open spec fn spec_esearch_response(s: Seq<u8>, i: int) -> Option<(EsearchResponseV, int)> {
    if spec_keyword(s, i, ESEARCH@) {
        let (correlator, j) = match spec_correlator(s, i + 7) {
            Some((t, k)) => (Some(t), k),
            None => (None, i + 7),
        };
        let (uid, j) = if spec_keyword(s, j, SP_UID@) { (true, j + 4) } else { (false, j) };
        let (items, e) = spec_preceded(SearchReturnDataRule, s, j, SP);
        Some((EsearchResponseV { correlator, uid, items }, e))
    } else {
        None
    }
}

/// Reads an `esearch-response` at `i`.
pub fn read_esearch_response(s: &[u8], i: usize) -> (r: Option<(EsearchResponse, usize)>)
    requires
        i <= s@.len(),
    ensures
        read_view(r) == spec_esearch_response(s@, i as int),
        r matches Some((_, j)) ==> i < j <= s@.len(),
{
    let kw = ESEARCH;
    if !keyword(s, i, kw.as_slice()) {
        return None;
    }
    let (correlator, j) = match read_correlator(s, i + 7) {
        Some((t, k)) => (Some(t), k),
        None => (None, i + 7),
    };
    let uid_kw = SP_UID;
    let (uid, j) = if keyword(s, j, uid_kw.as_slice()) { (true, j + 4) } else { (false, j) };
    let (items, e) = read_preceded(&SearchReturnDataRule, s, j, SP);
    Some((EsearchResponse { correlator, uid, items }, e))
}

/// How an `ESEARCH` response is written.
pub open spec fn spec_write_esearch_response(r: EsearchResponseV) -> Seq<u8> {
    ESEARCH@ + match r.correlator {
        Some(t) => SP_LPAREN_TAG_SP@ + seq![DQUOTE] + t + seq![DQUOTE, RPAREN],
        None => seq![],
    } + (if r.uid { SP_UID@ } else { seq![] }) + prefixed(
        r.items.map_values(|d: SearchReturnDataV| spec_write_search_return_data(d)),
        seq![SP],
    )
}

/// Writes an `ESEARCH` response.
pub fn write_esearch_response(out: &mut Vec<u8>, r: &EsearchResponse)
    ensures
        final(out)@ == old(out)@ + spec_write_esearch_response(r.deep_view()),
{
    let ghost start = old(out)@;
    let kw = ESEARCH;
    put(out, kw.as_slice());
    let ghost a = out@;
    match &r.correlator {
        Some(t) => {
            let w = SP_LPAREN_TAG_SP;
            put(out, w.as_slice());
            out.push(DQUOTE);
            put(out, t.as_bytes());
            out.push(DQUOTE);
            out.push(RPAREN);
        },
        None => {},
    }
    let ghost b = out@;
    if r.uid {
        let w = SP_UID;
        put(out, w.as_slice());
    }
    let ghost mid = out@;
    let ghost ws = r.items.deep_view().map_values(|d: SearchReturnDataV| spec_write_search_return_data(d));
    let mut k: usize = 0;
    while k < r.items.len()
        invariant
            k <= r.items@.len(),
            ws == r.items.deep_view().map_values(|d: SearchReturnDataV| spec_write_search_return_data(d)),
            out@ == mid + prefixed(ws.subrange(0, k as int), seq![SP]),
        decreases r.items@.len() - k,
    {
        out.push(SP);
        write_search_return_data(out, &r.items[k]);
        proof {
            let w = ws.subrange(0, k + 1);
            assert(w.drop_last() =~= ws.subrange(0, k as int));
            assert(r.items@[k as int].deep_view() == r.items.deep_view()[k as int]);
            assert(out@ =~= mid + prefixed(w, seq![SP]));
        }
        k = k + 1;
    }
    assert(ws.subrange(0, k as int) =~= ws);
    let ghost corr: Seq<u8> = match r.deep_view().correlator {
        Some(t) => SP_LPAREN_TAG_SP@ + seq![DQUOTE] + t + seq![DQUOTE, RPAREN],
        None => seq![],
    };
    assert(b =~= a + corr);
    assert(out@ =~= start + spec_write_esearch_response(r.deep_view()));
}

} // verus!

verus! {

// ---------------------------------------------------------------------
// What is written reads back.

/// A range written as its two ends with `:` between, at `i`, and followed
/// by a byte that is not a digit, reads back where its ends are in order.
proof fn lemma_partial_range_round_trip(a: u32, b: u32, s: Seq<u8>, i: int)
    requires
        0 < a <= b,
        0 <= i,
        i + (decimal(a as nat) + seq![COLON] + decimal(b as nat)).len() < s.len(),
        s.subrange(i, i + (decimal(a as nat) + seq![COLON] + decimal(b as nat)).len())
            == decimal(a as nat) + seq![COLON] + decimal(b as nat),
        !crate::chars::is_digit(s[i + (decimal(a as nat) + seq![COLON] + decimal(b as nat)).len()]),
    ensures
        spec_partial_range(s, i) == Some(((a, b), i + (decimal(a as nat) + seq![COLON] + decimal(b as nat)).len())),
{
    let da = decimal(a as nat);
    let db = decimal(b as nat);
    let w = da + seq![COLON] + db;
    crate::chars::lemma_part(s, i, w, 0, da.len() as int);
    assert(w.subrange(0, da.len() as int) =~= da);
    let j = i + da.len();
    assert(s[j] == s.subrange(i, i + w.len())[da.len() as int]);
    crate::num::lemma_nz_number_round_trip(a, s, i);
    crate::chars::lemma_part(s, i, w, da.len() + 1int, db.len() as int);
    assert(w.subrange(da.len() + 1int, w.len() as int) =~= db);
    crate::num::lemma_nz_number_round_trip(b, s, j + 1);
}

/// Whether an option can be written and read back: a partial range has
/// its ends, not zero, in order.
pub open spec fn writable_search_return_opt(o: SearchReturnOptionV) -> bool {
    o matches SearchReturnOptionV::Partial((a, b)) ==> 0 < a <= b
}

/// An option written at `i`, and followed by a space or `)`, reads back.
#[verifier::rlimit(100)]
#[verifier::spinoff_prover]
proof fn lemma_search_return_opt_round_trip(o: SearchReturnOptionV, s: Seq<u8>, i: int)
    requires
        writable_search_return_opt(o),
        0 <= i,
        i + spec_write_search_return_opt(o).len() < s.len(),
        s.subrange(i, i + spec_write_search_return_opt(o).len()) == spec_write_search_return_opt(o),
        s[i + spec_write_search_return_opt(o).len()] == SP || s[i + spec_write_search_return_opt(o).len()] == RPAREN,
    ensures
        spec_search_return_opt(s, i) == Some((o, i + spec_write_search_return_opt(o).len())),
{
    let w = spec_write_search_return_opt(o);
    let e = i + w.len();
    assert forall|k: int| 0 <= k < w.len() implies s[i + k] == #[trigger] w[k] by {
        assert(s[i + k] == s.subrange(i, e)[k]);
    }
    assert(s[i + 0] == w[0]);
    match o {
        SearchReturnOptionV::Partial((a, b)) => {
            let r = decimal(a as nat) + seq![COLON] + decimal(b as nat);
            crate::chars::lemma_part(s, i, w, 0, 8);
            assert(w.subrange(0, 8) =~= PARTIAL_SP@);
            crate::chars::lemma_keyword_at(s, i, PARTIAL_SP@);
            crate::chars::lemma_part(s, i, w, 8, r.len() as int);
            assert(w.subrange(8, 8 + r.len() as int) =~= r);
            lemma_partial_range_round_trip(a, b, s, i + 8);
        },
        SearchReturnOptionV::Min => {
            crate::chars::lemma_keyword_at(s, i, MIN@);
        },
        SearchReturnOptionV::Max => {
            assert(s[i + 1] == w[1]);
            crate::chars::lemma_keyword_at(s, i, MAX@);
        },
        SearchReturnOptionV::All => {
            crate::chars::lemma_keyword_at(s, i, crate::search::ALL@);
        },
        SearchReturnOptionV::Count => {
            crate::chars::lemma_keyword_at(s, i, COUNT@);
        },
        SearchReturnOptionV::Update => {
            crate::chars::lemma_keyword_at(s, i, UPDATE@);
        },
        SearchReturnOptionV::Context => {
            assert(s[i + 2] == w[2]);
            crate::chars::lemma_not_keyword(s, i, COUNT@, 2);
            crate::chars::lemma_keyword_at(s, i, CONTEXT@);
        },
        SearchReturnOptionV::Save => {
            crate::chars::lemma_keyword_at(s, i, SAVE@);
        },
    }
}

/// Whether options can be written and read back.
pub open spec fn writable_search_return_opts(os: Seq<SearchReturnOptionV>) -> bool {
    forall|k: int| 0 <= k < os.len() ==> writable_search_return_opt(#[trigger] os[k])
}

/// Options written at `i` as `" RETURN ("` and the list, reads back.
pub proof fn lemma_search_return_opts_round_trip(os: Seq<SearchReturnOptionV>, s: Seq<u8>, i: int)
    requires
        writable_search_return_opts(os),
        0 <= i,
        i + spec_write_search_return_opts(os).len() <= s.len(),
        s.subrange(i, i + spec_write_search_return_opts(os).len()) == spec_write_search_return_opts(os),
    ensures
        spec_search_return_opts(s, i) == Some((os, i + spec_write_search_return_opts(os).len())),
{
    let ws = os.map_values(|o: SearchReturnOptionV| spec_write_search_return_opt(o));
    let jw = crate::rule::join(ws, seq![SP]);
    let w = spec_write_search_return_opts(os);
    assert(w =~= SP_RETURN_SP@ + (seq![LPAREN] + jw + seq![RPAREN]));
    crate::chars::lemma_part(s, i, w, 0, 8);
    assert(w.subrange(0, 8) =~= SP_RETURN_SP@);
    crate::chars::lemma_keyword_at(s, i, SP_RETURN_SP@);
    crate::chars::lemma_part(s, i, w, 8, jw.len() + 2int);
    assert(w.subrange(8, 8 + jw.len() + 2int) =~= seq![LPAREN] + jw + seq![RPAREN]);
    let after = |b: u8| b == SP || b == RPAREN;
    assert forall|k: int, q: int| 0 <= k < os.len() implies #[trigger] crate::rule::reads_at(SearchReturnOptionRule, s, q, os[k], ws[k], after) by {
        assert(ws[k] == spec_write_search_return_opt(os[k]));
        if 0 <= q && q + ws[k].len() < s.len() && s.subrange(q, q + ws[k].len()) == ws[k] && after(s[q + ws[k].len()]) {
            lemma_search_return_opt_round_trip(os[k], s, q);
        }
    }
    if os.len() == 0 {
        assert(s[i + 9] == w[9]);
        assert(s[i + 9] == RPAREN);
        crate::chars::lemma_not_keyword(s, i + 9, MIN@, 0);
        crate::chars::lemma_not_keyword(s, i + 9, MAX@, 0);
        crate::chars::lemma_not_keyword(s, i + 9, crate::search::ALL@, 0);
        crate::chars::lemma_not_keyword(s, i + 9, COUNT@, 0);
        crate::chars::lemma_not_keyword(s, i + 9, PARTIAL_SP@, 0);
        crate::chars::lemma_not_keyword(s, i + 9, UPDATE@, 0);
        crate::chars::lemma_not_keyword(s, i + 9, CONTEXT@, 0);
        crate::chars::lemma_not_keyword(s, i + 9, SAVE@, 0);
    }
    crate::rule::lemma_paren_list_round_trip(SearchReturnOptionRule, os, ws, s, i + 8, true, after);
}

/// Whether a datum of `ESEARCH` can be written and read back.
pub open spec fn writable_search_return_data(d: SearchReturnDataV) -> bool {
    match d {
        SearchReturnDataV::Min(n) => n != 0,
        SearchReturnDataV::Max(n) => n != 0,
        SearchReturnDataV::All(u) => crate::uidplus::writable_uid_set(u),
        SearchReturnDataV::Count(_) => true,
        SearchReturnDataV::Partial((a, b), u) => 0 < a <= b && (u matches Some(x) ==> crate::uidplus::writable_uid_set(x)),
        SearchReturnDataV::AddTo(_, u) => crate::uidplus::writable_uid_set(u),
        SearchReturnDataV::RemoveFrom(_, u) => crate::uidplus::writable_uid_set(u),
    }
}

/// A context update written at `i` after its word, and followed by a
/// byte, reads back.
proof fn lemma_context_update_round_trip(word: Seq<u8>, n: u32, u: Seq<UidElementV>, s: Seq<u8>, i: int)
    requires
        crate::uidplus::writable_uid_set(u),
        0 <= i,
        i + (word + decimal(n as nat) + seq![SP] + spec_write_uid_set(u) + seq![RPAREN]).len() <= s.len(),
        s.subrange(i, i + (word + decimal(n as nat) + seq![SP] + spec_write_uid_set(u) + seq![RPAREN]).len())
            == word + decimal(n as nat) + seq![SP] + spec_write_uid_set(u) + seq![RPAREN],
    ensures
        spec_context_update(s, i, word) == Some(((n, u), i + (word + decimal(n as nat) + seq![SP] + spec_write_uid_set(u)
            + seq![RPAREN]).len())),
{
    let dn = decimal(n as nat);
    let wu = spec_write_uid_set(u);
    let w = word + dn + seq![SP] + wu + seq![RPAREN];
    let e = i + w.len();
    assert forall|k: int| 0 <= k < w.len() implies s[i + k] == #[trigger] w[k] by {
        assert(s[i + k] == s.subrange(i, e)[k]);
    }
    crate::chars::lemma_part(s, i, w, 0, word.len() as int);
    assert(w.subrange(0, word.len() as int) =~= word);
    crate::chars::lemma_keyword_at(s, i, word);
    let a = i + word.len();
    crate::chars::lemma_part(s, i, w, word.len() as int, dn.len() as int);
    assert(w.subrange(word.len() as int, word.len() as int + dn.len() as int) =~= dn);
    let j = a + dn.len();
    assert(s[j] == w[word.len() as int + dn.len() as int]);
    crate::num::lemma_number_round_trip(n, s, a);
    crate::chars::lemma_part(s, i, w, word.len() as int + dn.len() as int + 1, wu.len() as int);
    assert(w.subrange(word.len() as int + dn.len() as int + 1, word.len() as int + dn.len() as int + 1 + wu.len() as int) =~= wu);
    assert(s[j + 1 + wu.len()] == w[w.len() - 1]);
    crate::uidplus::lemma_uid_set_round_trip(u, s, j + 1);
}

/// A datum of `ESEARCH` written at `i`, and followed by a space or CR,
/// reads back.
#[verifier::rlimit(100)]
#[verifier::spinoff_prover]
pub proof fn lemma_search_return_data_round_trip(d: SearchReturnDataV, s: Seq<u8>, i: int)
    requires
        writable_search_return_data(d),
        0 <= i,
        i + spec_write_search_return_data(d).len() < s.len(),
        s.subrange(i, i + spec_write_search_return_data(d).len()) == spec_write_search_return_data(d),
        s[i + spec_write_search_return_data(d).len()] == SP || s[i + spec_write_search_return_data(d).len()] == crate::chars::CR,
    ensures
        spec_search_return_data(s, i) == Some((d, i + spec_write_search_return_data(d).len())),
{
    let w = spec_write_search_return_data(d);
    let e = i + w.len();
    assert forall|k: int| 0 <= k < w.len() implies s[i + k] == #[trigger] w[k] by {
        assert(s[i + k] == s.subrange(i, e)[k]);
    }
    assert(s[i + 0] == w[0] && s[i + 1] == w[1]);
    match d {
        SearchReturnDataV::Min(n) => {
            let dn = decimal(n as nat);
            crate::chars::lemma_part(s, i, w, 0, 4);
            assert(w.subrange(0, 4) =~= MIN_SP@);
            crate::chars::lemma_keyword_at(s, i, MIN_SP@);
            crate::chars::lemma_part(s, i, w, 4, dn.len() as int);
            assert(w.subrange(4, 4 + dn.len() as int) =~= dn);
            crate::num::lemma_nz_number_round_trip(n, s, i + 4);
        },
        SearchReturnDataV::Max(n) => {
            let dn = decimal(n as nat);
            crate::chars::lemma_part(s, i, w, 0, 4);
            assert(w.subrange(0, 4) =~= MAX_SP@);
            crate::chars::lemma_keyword_at(s, i, MAX_SP@);
            crate::chars::lemma_part(s, i, w, 4, dn.len() as int);
            assert(w.subrange(4, 4 + dn.len() as int) =~= dn);
            crate::num::lemma_nz_number_round_trip(n, s, i + 4);
        },
        SearchReturnDataV::All(u) => {
            let wu = spec_write_uid_set(u);
            crate::chars::lemma_part(s, i, w, 0, 4);
            assert(w.subrange(0, 4) =~= ALL_SP@);
            crate::chars::lemma_keyword_at(s, i, ALL_SP@);
            crate::chars::lemma_part(s, i, w, 4, wu.len() as int);
            assert(w.subrange(4, 4 + wu.len() as int) =~= wu);
            crate::uidplus::lemma_uid_set_round_trip(u, s, i + 4);
        },
        SearchReturnDataV::Count(n) => {
            let dn = decimal(n as nat);
            crate::chars::lemma_part(s, i, w, 0, 6);
            assert(w.subrange(0, 6) =~= COUNT_SP@);
            crate::chars::lemma_keyword_at(s, i, COUNT_SP@);
            crate::chars::lemma_part(s, i, w, 6, dn.len() as int);
            assert(w.subrange(6, 6 + dn.len() as int) =~= dn);
            crate::num::lemma_number_round_trip(n, s, i + 6);
        },
        SearchReturnDataV::Partial((a, b), u) => {
            let r = decimal(a as nat) + seq![COLON] + decimal(b as nat);
            let wu = match u {
                Some(x) => spec_write_uid_set(x),
                None => NIL@,
            };
            assert(w =~= PARTIAL_SP_LPAREN@ + r + seq![SP] + wu + seq![RPAREN]);
            crate::chars::lemma_part(s, i, w, 0, 9);
            assert(w.subrange(0, 9) =~= PARTIAL_SP_LPAREN@);
            crate::chars::lemma_keyword_at(s, i, PARTIAL_SP_LPAREN@);
            crate::chars::lemma_part(s, i, w, 9, r.len() as int);
            assert(w.subrange(9, 9 + r.len() as int) =~= r);
            let j = i + 9 + r.len();
            assert(s[j] == w[9 + r.len() as int]);
            lemma_partial_range_round_trip(a, b, s, i + 9);
            crate::chars::lemma_part(s, i, w, 10 + r.len() as int, wu.len() as int);
            assert(w.subrange(10 + r.len() as int, 10 + r.len() as int + wu.len() as int) =~= wu);
            assert(s[j + 1 + wu.len()] == w[w.len() - 1]);
            match u {
                Some(x) => {
                    crate::uidplus::lemma_uid_set_round_trip(x, s, j + 1);
                },
                None => {
                    assert(s[j + 1] == w[10 + r.len() as int]);
                    assert(crate::chars::scan_end(s, j + 1, crate::chars::ByteClass::Digit) == j + 1);
                    crate::chars::lemma_keyword_at(s, j + 1, NIL@);
                },
            }
        },
        SearchReturnDataV::AddTo(n, u) => {
            let rest = w.subrange(0, w.len() as int);
            assert(w =~= ADDTO_SP_LPAREN@ + decimal(n as nat) + seq![SP] + spec_write_uid_set(u) + seq![RPAREN]);
            lemma_context_update_round_trip(ADDTO_SP_LPAREN@, n, u, s, i);
        },
        SearchReturnDataV::RemoveFrom(n, u) => {
            assert(w =~= REMOVEFROM_SP_LPAREN@ + decimal(n as nat) + seq![SP] + spec_write_uid_set(u) + seq![RPAREN]);
            lemma_context_update_round_trip(REMOVEFROM_SP_LPAREN@, n, u, s, i);
        },
    }
}

/// Whether an `ESEARCH` response can be written and read back.
pub open spec fn writable_esearch_response(r: EsearchResponseV) -> bool {
    &&& r.correlator matches Some(t) ==> crate::command::writable_tag(t)
    &&& forall|k: int| 0 <= k < r.items.len() ==> writable_search_return_data(#[trigger] r.items[k])
}

/// How an `ESEARCH` response is written, in its parts.
pub open spec fn esearch_parts(r: EsearchResponseV) -> (Seq<u8>, Seq<u8>, Seq<u8>) {
    (match r.correlator {
        Some(t) => SP_LPAREN_TAG_SP@ + seq![DQUOTE] + t + seq![DQUOTE, RPAREN],
        None => seq![],
    }, if r.uid { SP_UID@ } else { seq![] }, prefixed(
        r.items.map_values(|d: SearchReturnDataV| spec_write_search_return_data(d)),
        seq![SP],
    ))
}

/// The correlator and the `UID` of an `ESEARCH` response, written after its
/// name at `a`, read back, where what follows them is its data or CR.
#[verifier::rlimit(100)]
#[verifier::spinoff_prover]
proof fn lemma_esearch_head_round_trip(r: EsearchResponseV, s: Seq<u8>, a: int)
    requires
        r.correlator matches Some(t) ==> crate::command::writable_tag(t),
        0 <= a,
        a + (esearch_parts(r).0 + esearch_parts(r).1).len() < s.len(),
        s.subrange(a, a + (esearch_parts(r).0 + esearch_parts(r).1).len()) == esearch_parts(r).0 + esearch_parts(r).1,
        s[a + (esearch_parts(r).0 + esearch_parts(r).1).len()] == crate::chars::CR
            || (s[a + (esearch_parts(r).0 + esearch_parts(r).1).len()] == SP
            && a + (esearch_parts(r).0 + esearch_parts(r).1).len() + 1 < s.len()
            && crate::chars::to_lower(s[a + (esearch_parts(r).0 + esearch_parts(r).1).len() + 1]) != 117
            && s[a + (esearch_parts(r).0 + esearch_parts(r).1).len() + 1] != LPAREN),
    ensures
        (match spec_correlator(s, a) {
            Some((t, k)) => (Some(t), k),
            None => (None, a),
        }) == (r.correlator, a + esearch_parts(r).0.len()),
        spec_keyword(s, a + esearch_parts(r).0.len(), SP_UID@) == r.uid,
{
    let wc = esearch_parts(r).0;
    let wu = esearch_parts(r).1;
    let w = wc + wu;
    let e = a + w.len();
    let b = a + wc.len();
    assert forall|k: int| 0 <= k < w.len() implies s[a + k] == #[trigger] w[k] by {
        assert(s[a + k] == s.subrange(a, e)[k]);
    }
    match r.correlator {
        Some(t) => {
            assert(s[a] == w[0] && s[a + 1] == w[1]);
            crate::chars::lemma_part(s, a, w, 0, 6);
            assert(w.subrange(0, 6) =~= SP_LPAREN_TAG_SP@);
            crate::chars::lemma_keyword_at(s, a, SP_LPAREN_TAG_SP@);
            let j = a + 6;
            assert(s[j] == w[6]);
            assert forall|q: int| j + 1 <= q < j + 1 + t.len() implies crate::chars::ByteClass::Tag.spec_has(#[trigger] s[q]) by {
                assert(s[q] == w[q - a]);
                assert(w[q - a] == t[q - j - 1]);
            }
            assert(s[j + 1 + t.len()] == w[7 + t.len() as int]);
            assert(s[j + 2 + t.len()] == w[8 + t.len() as int]);
            crate::chars::lemma_scan_end_of_run(s, j + 1, j + 1 + t.len(), crate::chars::ByteClass::Tag);
            assert(s.subrange(j + 1, j + 1 + t.len()) =~= t) by {
                assert forall|q: int| 0 <= q < t.len() implies s.subrange(j + 1, j + 1 + t.len())[q] == t[q] by {
                    assert(s[j + 1 + q] == w[7 + q]);
                }
            }
        },
        None => {
            if r.uid {
                assert(s[a] == w[0] && s[a + 1] == w[1]);
            }
        },
    }
    if r.uid {
        crate::chars::lemma_part(s, a, w, wc.len() as int, 4);
        assert(w.subrange(wc.len() as int, wc.len() + 4int) =~= SP_UID@);
        crate::chars::lemma_keyword_at(s, b, SP_UID@);
    } else {
        if s[e] == SP {
            crate::chars::lemma_not_keyword(s, b, SP_UID@, 1);
        } else {
            crate::chars::lemma_not_keyword(s, b, SP_UID@, 0);
        }
        if r.correlator is None {
            if s[e] == SP {
                crate::chars::lemma_not_keyword(s, a, SP_LPAREN_TAG_SP@, 1);
            } else {
                crate::chars::lemma_not_keyword(s, a, SP_LPAREN_TAG_SP@, 0);
            }
        }
    }
}

/// An `ESEARCH` response written at `i` and followed by CR reads back.
#[verifier::rlimit(100)]
#[verifier::spinoff_prover]
pub proof fn lemma_esearch_response_round_trip(r: EsearchResponseV, s: Seq<u8>, i: int)
    requires
        writable_esearch_response(r),
        0 <= i,
        i + spec_write_esearch_response(r).len() < s.len(),
        s.subrange(i, i + spec_write_esearch_response(r).len()) == spec_write_esearch_response(r),
        s[i + spec_write_esearch_response(r).len()] == crate::chars::CR,
    ensures
        spec_esearch_response(s, i) == Some((r, i + spec_write_esearch_response(r).len())),
{
    let w = spec_write_esearch_response(r);
    let (wc, wu, pw) = esearch_parts(r);
    let ws = r.items.map_values(|d: SearchReturnDataV| spec_write_search_return_data(d));
    assert(pw == prefixed(ws, seq![SP]));
    assert(w =~= ESEARCH@ + (wc + wu) + pw);
    crate::chars::lemma_part(s, i, w, 0, 7);
    assert(w.subrange(0, 7) =~= ESEARCH@);
    crate::chars::lemma_keyword_at(s, i, ESEARCH@);
    let a = i + 7;
    let c = a + (wc + wu).len();
    crate::chars::lemma_part(s, i, w, 7, (wc + wu).len() as int);
    assert(w.subrange(7, 7 + (wc + wu).len() as int) =~= wc + wu);
    crate::chars::lemma_part(s, i, w, 7 + (wc + wu).len() as int, pw.len() as int);
    assert(w.subrange(7 + (wc + wu).len() as int, w.len() as int) =~= pw);
    if r.items.len() > 0 {
        crate::rule::lemma_prefixed_front(ws, seq![SP]);
        assert(s[c] == s.subrange(c, c + pw.len())[0]);
        assert(s[c + 1] == s.subrange(c, c + pw.len())[1]);
        assert(ws[0] == spec_write_search_return_data(r.items[0]));
        assert(s[c + 1] == 65 || s[c + 1] == 67 || s[c + 1] == 77 || s[c + 1] == 80 || s[c + 1] == 82);
    } else {
        assert(pw == Seq::<u8>::empty());
    }
    lemma_esearch_head_round_trip(r, s, a);
    let after = |x: u8| x == SP || x == crate::chars::CR;
    assert forall|k: int, q: int| 0 <= k < r.items.len() implies #[trigger] crate::rule::reads_at(SearchReturnDataRule, s, q, r.items[k], ws[k], after) by {
        assert(ws[k] == spec_write_search_return_data(r.items[k]));
        if 0 <= q && q + ws[k].len() < s.len() && s.subrange(q, q + ws[k].len()) == ws[k] && after(s[q + ws[k].len()]) {
            lemma_search_return_data_round_trip(r.items[k], s, q);
        }
    }
    crate::rule::lemma_preceded_round_trip(SearchReturnDataRule, r.items, ws, s, c, SP, after);
}

} // verus!

verus! {

// ---------------------------------------------------------------------
// What the words `MIN` and `MAX` stand for.

/// The options `MIN` and `MAX` are written as the bytes `MIN` and `MAX`.
pub proof fn lemma_min_max_option_written()
    ensures
        spec_option_name(SearchReturnOptionV::Min) == seq![77u8, 73, 78],
        spec_option_name(SearchReturnOptionV::Max) == seq![77u8, 65, 88],
        spec_write_search_return_opt(SearchReturnOptionV::Min) == seq![77u8, 73, 78],
        spec_write_search_return_opt(SearchReturnOptionV::Max) == seq![77u8, 65, 88],
{
    assert(MIN@ =~= seq![77u8, 73, 78]);
    assert(MAX@ =~= seq![77u8, 65, 88]);
}

/// The word `MIN`, in any case, reads as the option `MIN`, and `MAX` as
/// `MAX`, whatever follows it.
pub proof fn lemma_min_max_option_read(s: Seq<u8>, i: int)
    ensures
        spec_keyword(s, i, seq![77u8, 73, 78]) ==> spec_search_return_opt(s, i) == Some((SearchReturnOptionV::Min, i + 3)),
        spec_keyword(s, i, seq![77u8, 65, 88]) ==> spec_search_return_opt(s, i) == Some((SearchReturnOptionV::Max, i + 3)),
{
    assert(MIN@ =~= seq![77u8, 73, 78]);
    assert(MAX@ =~= seq![77u8, 65, 88]);
    if spec_keyword(s, i, seq![77u8, 65, 88]) {
        assert(crate::chars::to_lower(s[i + 1]) == crate::chars::to_lower(seq![77u8, 65, 88][1]));
        crate::chars::lemma_not_keyword(s, i, MIN@, 1);
    }
}

/// The data `MIN n` and `MAX n` are written as the word, a space and `n`
/// in decimal.
pub proof fn lemma_min_max_data_written(n: u32)
    ensures
        spec_write_search_return_data(SearchReturnDataV::Min(n)) == seq![77u8, 73, 78, 32] + decimal(n as nat),
        spec_write_search_return_data(SearchReturnDataV::Max(n)) == seq![77u8, 65, 88, 32] + decimal(n as nat),
{
    assert(MIN_SP@ =~= seq![77u8, 73, 78, 32]);
    assert(MAX_SP@ =~= seq![77u8, 65, 88, 32]);
}

/// Data that begins with the word `MIN` and a space, in any case, followed
/// by a number other than zero whose digits end there, reads as `MIN` of
/// that number; after `MAX`, as `MAX` of it.
pub proof fn lemma_min_max_data_read(s: Seq<u8>, i: int, n: u32)
    requires
        n != 0,
        0 <= i,
        i + 4 + decimal(n as nat).len() < s.len(),
        s.subrange(i + 4, i + 4 + decimal(n as nat).len()) == decimal(n as nat),
        !crate::chars::is_digit(s[i + 4 + decimal(n as nat).len()]),
    ensures
        spec_keyword(s, i, seq![77u8, 73, 78, 32]) ==> spec_search_return_data(s, i)
            == Some((SearchReturnDataV::Min(n), i + 4 + decimal(n as nat).len())),
        spec_keyword(s, i, seq![77u8, 65, 88, 32]) ==> spec_search_return_data(s, i)
            == Some((SearchReturnDataV::Max(n), i + 4 + decimal(n as nat).len())),
{
    assert(MIN_SP@ =~= seq![77u8, 73, 78, 32]);
    assert(MAX_SP@ =~= seq![77u8, 65, 88, 32]);
    crate::num::lemma_nz_number_round_trip(n, s, i + 4);
    if spec_keyword(s, i, seq![77u8, 65, 88, 32]) {
        assert(crate::chars::to_lower(s[i + 1]) == crate::chars::to_lower(seq![77u8, 65, 88, 32][1]));
        crate::chars::lemma_not_keyword(s, i, MIN_SP@, 1);
    }
}

} // verus!

verus! {

// ---------------------------------------------------------------------
// The words each form is written with.

/// How each form of the name of a search return option is written, its words spelled out byte by byte.
pub proof fn lemma_option_name_spelled()
    ensures
        spec_option_name(SearchReturnOptionV::Min) == seq![77u8, 73, 78],
        spec_option_name(SearchReturnOptionV::Max) == seq![77u8, 65, 88],
        spec_option_name(SearchReturnOptionV::All) == seq![65u8, 76, 76],
        spec_option_name(SearchReturnOptionV::Count) == seq![67u8, 79, 85, 78, 84],
        forall|v: SearchReturnOptionV| #![trigger spec_option_name(v)] v matches SearchReturnOptionV::Partial(_) ==> spec_option_name(v) == seq![80u8, 65, 82, 84, 73, 65, 76],
        spec_option_name(SearchReturnOptionV::Update) == seq![85u8, 80, 68, 65, 84, 69],
        spec_option_name(SearchReturnOptionV::Context) == seq![67u8, 79, 78, 84, 69, 88, 84],
        spec_option_name(SearchReturnOptionV::Save) == seq![83u8, 65, 86, 69],
{
    assert(CONTEXT@ =~= seq![67u8, 79, 78, 84, 69, 88, 84]);
    assert(COUNT@ =~= seq![67u8, 79, 85, 78, 84]);
    assert(MAX@ =~= seq![77u8, 65, 88]);
    assert(MIN@ =~= seq![77u8, 73, 78]);
    assert(PARTIAL@ =~= seq![80u8, 65, 82, 84, 73, 65, 76]);
    assert(SAVE@ =~= seq![83u8, 65, 86, 69]);
    assert(UPDATE@ =~= seq![85u8, 80, 68, 65, 84, 69]);
    assert(crate::search::ALL@ =~= seq![65u8, 76, 76]);
}

/// How each form of a search return option is written, its words spelled out byte by byte.
pub proof fn lemma_search_return_opt_written()
    ensures
        forall|v: SearchReturnOptionV| #![trigger spec_write_search_return_opt(v)] v matches SearchReturnOptionV::Partial((a, b)) ==> spec_write_search_return_opt(v) == seq![80u8, 65, 82, 84, 73, 65, 76, 32] + decimal(a as nat) + seq![COLON] + decimal(b as nat),
{
    assert(PARTIAL_SP@ =~= seq![80u8, 65, 82, 84, 73, 65, 76, 32]);
}

/// How each form of search return data is written, its words spelled out byte by byte.
pub proof fn lemma_search_return_data_written()
    ensures
        forall|v: SearchReturnDataV| #![trigger spec_write_search_return_data(v)] v matches SearchReturnDataV::Min(n) ==> spec_write_search_return_data(v) == seq![77u8, 73, 78, 32] + decimal(n as nat),
        forall|v: SearchReturnDataV| #![trigger spec_write_search_return_data(v)] v matches SearchReturnDataV::Max(n) ==> spec_write_search_return_data(v) == seq![77u8, 65, 88, 32] + decimal(n as nat),
        forall|v: SearchReturnDataV| #![trigger spec_write_search_return_data(v)] v matches SearchReturnDataV::All(u) ==> spec_write_search_return_data(v) == seq![65u8, 76, 76, 32] + spec_write_uid_set(u),
        forall|v: SearchReturnDataV| #![trigger spec_write_search_return_data(v)] v matches SearchReturnDataV::Count(n) ==> spec_write_search_return_data(v) == seq![67u8, 79, 85, 78, 84, 32] + decimal(n as nat),
        forall|v: SearchReturnDataV| #![trigger spec_write_search_return_data(v)] v matches SearchReturnDataV::Partial((a, b), u) ==> spec_write_search_return_data(v) == seq![80u8, 65, 82, 84, 73, 65, 76, 32, 40] + decimal(a as nat) + seq![COLON] + decimal(b as nat) + seq![SP] + match u { Some(u) => spec_write_uid_set(u), None => seq![78u8, 73, 76], } + seq![RPAREN],
        forall|v: SearchReturnDataV| #![trigger spec_write_search_return_data(v)] v matches SearchReturnDataV::AddTo(n, u) ==> spec_write_search_return_data(v) == seq![65u8, 68, 68, 84, 79, 32, 40] + decimal(n as nat) + seq![SP] + spec_write_uid_set(u) + seq![RPAREN],
        forall|v: SearchReturnDataV| #![trigger spec_write_search_return_data(v)] v matches SearchReturnDataV::RemoveFrom(n, u) ==> spec_write_search_return_data(v) == seq![82u8, 69, 77, 79, 86, 69, 70, 82, 79, 77, 32, 40] + decimal(n as nat) + seq![SP] + spec_write_uid_set(u) + seq![RPAREN],
{
    assert(ADDTO_SP_LPAREN@ =~= seq![65u8, 68, 68, 84, 79, 32, 40]);
    assert(ALL_SP@ =~= seq![65u8, 76, 76, 32]);
    assert(COUNT_SP@ =~= seq![67u8, 79, 85, 78, 84, 32]);
    assert(MAX_SP@ =~= seq![77u8, 65, 88, 32]);
    assert(MIN_SP@ =~= seq![77u8, 73, 78, 32]);
    assert(NIL@ =~= seq![78u8, 73, 76]);
    assert(PARTIAL_SP_LPAREN@ =~= seq![80u8, 65, 82, 84, 73, 65, 76, 32, 40]);
    assert(REMOVEFROM_SP_LPAREN@ =~= seq![82u8, 69, 77, 79, 86, 69, 70, 82, 79, 77, 32, 40]);
}

} // verus!
