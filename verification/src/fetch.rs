//! FETCH: message flags, body sections, the items a `FETCH` asks for
//! (RFC 3501 Section 6.4.5, RFC 8474 Section 5, RFC 8970), and the items
//! a `FETCH` response carries.

use vstd::prelude::*;

use crate::chars::{byte, keyword, put, spec_byte, spec_keyword, BACKSLASH, CR, LPAREN, RPAREN, SP};
use crate::num::{decimal, read_number, spec_number, spec_nz_number, write_number, NzNumber, NzNumberRule};
use crate::rule::{
    join, prefixed, read_paren_list, read_separated, read_view, spec_paren_list, spec_preceded, spec_separated,
    write_joined, written, Rule, Writer,
};
use crate::strings::{read_atom, spec_atom, AStringRule, Atom, StrV};
use crate::vec1::Vec1;

verus! {

broadcast use NzNumber::lemma_view_is_value;

// ---------------------------------------------------------------------
// Flags.

/// A message flag: `flag = "\" atom / atom`. A system flag and a flag
/// extension are written with a backslash, a keyword without.
#[derive(Debug, PartialEq, Eq, Hash)]
pub enum Flag {
    /// `"\" atom`, such as `\Seen`.
    System(Atom),
    /// `flag-keyword = atom`, such as `$Forwarded`.
    Keyword(Atom),
}

/// The model of a [`Flag`].
pub enum FlagV {
    System(Seq<u8>),
    Keyword(Seq<u8>),
}

impl DeepView for Flag {
    type V = FlagV;

    open spec fn deep_view(&self) -> FlagV {
        match self {
            Flag::System(a) => FlagV::System(a.deep_view()),
            Flag::Keyword(a) => FlagV::Keyword(a.deep_view()),
        }
    }
}

/// `flag`
pub open spec fn spec_flag(s: Seq<u8>, i: int) -> Option<(FlagV, int)> {
    if spec_byte(s, i, BACKSLASH) {
        match spec_atom(s, i + 1) {
            Some((a, j)) => Some((FlagV::System(a), j)),
            None => None,
        }
    } else {
        match spec_atom(s, i) {
            Some((a, j)) => Some((FlagV::Keyword(a), j)),
            None => None,
        }
    }
}

/// The rule `flag`.
pub struct FlagRule;

impl Rule for FlagRule {
    type Out = Flag;

    open spec fn spec_read(&self, s: Seq<u8>, i: int) -> Option<(FlagV, int)> {
        spec_flag(s, i)
    }

    fn read(&self, s: &[u8], i: usize) -> (r: Option<(Flag, usize)>) {
        if byte(s, i, BACKSLASH) {
            match read_atom(s, i + 1) {
                Some((a, j)) => Some((Flag::System(a), j)),
                None => None,
            }
        } else {
            match read_atom(s, i) {
                Some((a, j)) => Some((Flag::Keyword(a), j)),
                None => None,
            }
        }
    }
}

/// How a flag is written.
pub open spec fn spec_write_flag(f: FlagV) -> Seq<u8> {
    match f {
        FlagV::System(a) => seq![BACKSLASH] + a,
        FlagV::Keyword(a) => a,
    }
}

/// Writes flags.
pub struct FlagWriter;

impl Writer for FlagWriter {
    type In = Flag;

    open spec fn spec_write(&self, v: FlagV) -> Seq<u8> {
        spec_write_flag(v)
    }

    fn write(&self, out: &mut Vec<u8>, v: &Flag) {
        let ghost start = old(out)@;
        match v {
            Flag::System(a) => {
                out.push(BACKSLASH);
                put(out, a.as_bytes());
            },
            Flag::Keyword(a) => put(out, a.as_bytes()),
        }
        assert(out@ =~= start + spec_write_flag(v.deep_view()));
    }
}

/// `flag-list = "(" [flag *(SP flag)] ")"`
pub open spec fn spec_flag_list(s: Seq<u8>, i: int) -> Option<(Seq<FlagV>, int)> {
    spec_paren_list(FlagRule, s, i, true)
}

/// How a flag list is written.
pub open spec fn spec_write_flag_list(fs: Seq<FlagV>) -> Seq<u8> {
    seq![LPAREN] + join(written(FlagWriter, fs), seq![SP]) + seq![RPAREN]
}

/// Writes a flag list.
pub fn write_flag_list(out: &mut Vec<u8>, fs: &[Flag])
    ensures
        final(out)@ == old(out)@ + spec_write_flag_list(fs.deep_view()),
{
    let ghost start = old(out)@;
    out.push(LPAREN);
    let sp = [SP];
    write_joined(&FlagWriter, out, fs, sp.as_slice());
    out.push(RPAREN);
    assert(sp@ =~= seq![SP]);
    assert(out@ =~= start + spec_write_flag_list(fs.deep_view()));
}

// ---------------------------------------------------------------------
// Sections.

/// `.`
pub const DOT: u8 = 46;
/// `[`
pub const LBRACKET: u8 = 91;
/// `]`
pub const RBRACKET: u8 = 93;
/// `<`
pub const LANGLE: u8 = 60;
/// `>`
pub const RANGLE: u8 = 62;

/// `HEADER.FIELDS.NOT `
pub const HEADER_FIELDS_NOT_SP: [u8; 18] = [72, 69, 65, 68, 69, 82, 46, 70, 73, 69, 76, 68, 83, 46, 78, 79, 84, 32];
/// `HEADER.FIELDS `
pub const HEADER_FIELDS_SP: [u8; 14] = [72, 69, 65, 68, 69, 82, 46, 70, 73, 69, 76, 68, 83, 32];
/// `HEADER`
pub const HEADER: [u8; 6] = [72, 69, 65, 68, 69, 82];
/// `TEXT`
pub const TEXT: [u8; 4] = [84, 69, 88, 84];
/// `MIME`
pub const MIME: [u8; 4] = [77, 73, 77, 69];

/// `section-part = nz-number *("." nz-number)`: the path to a body part.
#[derive(Debug, PartialEq, Eq, Hash)]
pub struct Part(pub Vec1<NzNumber>);

impl DeepView for Part {
    type V = Seq<u32>;

    open spec fn deep_view(&self) -> Seq<u32> {
        self.0.deep_view()
    }
}

/// A section of a message: `section-spec`.
#[derive(Debug, PartialEq, Eq, Hash)]
pub enum Section {
    /// A body part, whole.
    Part(Part),
    /// The header of the message or of a part.
    Header(Option<Part>),
    /// The named header fields.
    HeaderFields(Option<Part>, Vec1<crate::strings::AString>),
    /// The header fields other than the named ones.
    HeaderFieldsNot(Option<Part>, Vec1<crate::strings::AString>),
    /// The text, without the header.
    Text(Option<Part>),
    /// The MIME header of a part.
    Mime(Part),
}

/// The model of a [`Section`].
pub enum SectionV {
    Part(Seq<u32>),
    Header(Option<Seq<u32>>),
    HeaderFields(Option<Seq<u32>>, Seq<StrV>),
    HeaderFieldsNot(Option<Seq<u32>>, Seq<StrV>),
    Text(Option<Seq<u32>>),
    Mime(Seq<u32>),
}

/// The model of an optional part.
pub open spec fn opt_part_view(p: Option<Part>) -> Option<Seq<u32>> {
    match p {
        Some(p) => Some(p.deep_view()),
        None => None,
    }
}

impl DeepView for Section {
    type V = SectionV;

    open spec fn deep_view(&self) -> SectionV {
        match self {
            Section::Part(p) => SectionV::Part(p.deep_view()),
            Section::Header(p) => SectionV::Header(opt_part_view(*p)),
            Section::HeaderFields(p, l) => SectionV::HeaderFields(opt_part_view(*p), l.deep_view()),
            Section::HeaderFieldsNot(p, l) => SectionV::HeaderFieldsNot(opt_part_view(*p), l.deep_view()),
            Section::Text(p) => SectionV::Text(opt_part_view(*p)),
            Section::Mime(p) => SectionV::Mime(p.deep_view()),
        }
    }
}

/// `section-part`
pub open spec fn spec_section_part(s: Seq<u8>, i: int) -> Option<(Seq<u32>, int)> {
    spec_separated(NzNumberRule, s, i, DOT)
}

fn read_section_part(s: &[u8], i: usize) -> (r: Option<(Part, usize)>)
    requires
        i <= s@.len(),
    ensures
        read_view(r) == spec_section_part(s@, i as int),
        r matches Some((_, j)) ==> i <= j <= s@.len(),
{
    match read_separated(&NzNumberRule, s, i, DOT) {
        Some((ns, j)) => match Vec1::from_vec_dv(ns) {
            Some(v) => Some((Part(v), j)),
            None => None,
        },
        None => None,
    }
}

/// `header-list = "(" header-fld-name *(SP header-fld-name) ")"`, where
/// `header-fld-name = astring`.
pub open spec fn spec_header_list(s: Seq<u8>, i: int) -> Option<(Seq<StrV>, int)> {
    spec_paren_list(AStringRule, s, i, false)
}

fn read_header_list(s: &[u8], i: usize) -> (r: Option<(Vec1<crate::strings::AString>, usize)>)
    requires
        i <= s@.len(),
    ensures
        read_view(r) == spec_header_list(s@, i as int),
        r matches Some((_, j)) ==> i <= j <= s@.len(),
{
    match read_paren_list(&AStringRule, s, i, false) {
        Some((l, j)) => match Vec1::from_vec_dv(l) {
            Some(v) => Some((v, j)),
            None => None,
        },
        None => None,
    }
}

/// `section-msgtext = "HEADER" / "HEADER.FIELDS" [".NOT"] SP header-list
/// / "TEXT"`, for the part `p` or the whole message; the longer words are
/// tried first.
pub open spec fn spec_section_msgtext(s: Seq<u8>, i: int, p: Option<Seq<u32>>) -> Option<(SectionV, int)> {
    let r = if spec_keyword(s, i, HEADER_FIELDS_NOT_SP@) {
        match spec_header_list(s, i + 18) {
            Some((l, j)) => Some((SectionV::HeaderFieldsNot(p, l), j)),
            None => None,
        }
    } else {
        None
    };
    let r = crate::search::alt(r, if spec_keyword(s, i, HEADER_FIELDS_SP@) {
        match spec_header_list(s, i + 14) {
            Some((l, j)) => Some((SectionV::HeaderFields(p, l), j)),
            None => None,
        }
    } else {
        None
    });
    let r = crate::search::alt(r, crate::search::flag(s, i, HEADER@, SectionV::Header(p)));
    crate::search::alt(r, crate::search::flag(s, i, TEXT@, SectionV::Text(p)))
}

fn copy_part(p: &Option<Part>) -> (r: Option<Part>)
    ensures
        opt_part_view(r) == opt_part_view(*p),
{
    match p {
        Some(Part(v)) => {
            let mut c: Vec<NzNumber> = Vec::new();
            let xs = v.as_slice_dv();
            let mut k: usize = 0;
            while k < xs.len()
                invariant
                    k <= xs@.len(),
                    c@ =~= xs@.subrange(0, k as int),
                decreases xs@.len() - k,
            {
                c.push(xs[k]);
                k = k + 1;
            }
            assert(xs@.subrange(0, k as int) =~= xs@);
            assert(c.deep_view() =~= xs.deep_view());
            match Vec1::from_vec_dv(c) {
                Some(v) => Some(Part(v)),
                None => None,
            }
        },
        None => None,
    }
}

fn read_section_msgtext(s: &[u8], i: usize, p: Option<Part>) -> (r: Option<(Section, usize)>)
    requires
        i <= s@.len(),
    ensures
        read_view(r) == spec_section_msgtext(s@, i as int, opt_part_view(p)),
        r matches Some((_, j)) ==> i <= j <= s@.len(),
{
    let k = HEADER_FIELDS_NOT_SP;
    if keyword(s, i, k.as_slice()) {
        if let Some((l, j)) = read_header_list(s, i + 18) {
            return Some((Section::HeaderFieldsNot(p, l), j));
        }
    }
    let k = HEADER_FIELDS_SP;
    if keyword(s, i, k.as_slice()) {
        if let Some((l, j)) = read_header_list(s, i + 14) {
            return Some((Section::HeaderFields(p, l), j));
        }
    }
    let k = HEADER;
    if keyword(s, i, k.as_slice()) {
        return Some((Section::Header(p), i + 6));
    }
    let k = TEXT;
    if keyword(s, i, k.as_slice()) {
        return Some((Section::Text(p), i + 4));
    }
    None
}

/// `section-text = section-msgtext / "MIME"`, for the part `p`.
pub open spec fn spec_section_text(s: Seq<u8>, i: int, p: Seq<u32>) -> Option<(SectionV, int)> {
    crate::search::alt(
        spec_section_msgtext(s, i, Some(p)),
        crate::search::flag(s, i, MIME@, SectionV::Mime(p)),
    )
}

/// `section-spec = section-msgtext / (section-part ["." section-text])`
pub open spec fn spec_section_spec(s: Seq<u8>, i: int) -> Option<(SectionV, int)> {
    crate::search::alt(spec_section_msgtext(s, i, None), match spec_section_part(s, i) {
        Some((p, j)) => if spec_byte(s, j, DOT) {
            match spec_section_text(s, j + 1, p) {
                Some(x) => Some(x),
                None => Some((SectionV::Part(p), j)),
            }
        } else {
            Some((SectionV::Part(p), j))
        },
        None => None,
    })
}

fn read_section_spec(s: &[u8], i: usize) -> (r: Option<(Section, usize)>)
    requires
        i <= s@.len(),
    ensures
        read_view(r) == spec_section_spec(s@, i as int),
        r matches Some((_, j)) ==> i <= j <= s@.len(),
{
    if let Some(x) = read_section_msgtext(s, i, None) {
        return Some(x);
    }
    match read_section_part(s, i) {
        Some((p, j)) => {
            if byte(s, j, DOT) {
                let some_p = Some(p);
                let copy = copy_part(&some_p);
                if let Some(x) = read_section_msgtext(s, j + 1, copy) {
                    return Some(x);
                }
                let k = MIME;
                if keyword(s, j + 1, k.as_slice()) {
                    match some_p {
                        Some(p) => return Some((Section::Mime(p), j + 5)),
                        None => return None,
                    }
                }
                match some_p {
                    Some(p) => Some((Section::Part(p), j)),
                    None => None,
                }
            } else {
                Some((Section::Part(p), j))
            }
        },
        None => None,
    }
}

/// `section = "[" [section-spec] "]"`
pub open spec fn spec_section(s: Seq<u8>, i: int) -> Option<(Option<SectionV>, int)> {
    if spec_byte(s, i, LBRACKET) {
        match spec_section_spec(s, i + 1) {
            Some((sec, j)) => if spec_byte(s, j, RBRACKET) {
                Some((Some(sec), j + 1))
            } else {
                None
            },
            None => if spec_byte(s, i + 1, RBRACKET) {
                Some((None, i + 2))
            } else {
                None
            },
        }
    } else {
        None
    }
}

/// Reads a `section` at `i`.
pub fn read_section(s: &[u8], i: usize) -> (r: Option<(Option<Section>, usize)>)
    requires
        i <= s@.len(),
    ensures
        r matches Some((sec, j)) ==> spec_section(s@, i as int) == Some((match sec {
            Some(x) => Some(x.deep_view()),
            None => None::<SectionV>,
        }, j as int)) && i < j <= s@.len(),
        r is None ==> spec_section(s@, i as int) is None,
{
    if !byte(s, i, LBRACKET) {
        return None;
    }
    match read_section_spec(s, i + 1) {
        Some((sec, j)) => if byte(s, j, RBRACKET) {
            Some((Some(sec), j + 1))
        } else {
            None
        },
        None => if byte(s, i + 1, RBRACKET) {
            Some((None, i + 2))
        } else {
            None
        },
    }
}

/// How a part is written: its numbers separated by dots.
pub open spec fn spec_write_part(p: Seq<u32>) -> Seq<u8> {
    join(p.map_values(|n: u32| decimal(n as nat)), seq![DOT])
}

/// Writes numbers.
pub struct NzNumberWriter;

impl Writer for NzNumberWriter {
    type In = NzNumber;

    open spec fn spec_write(&self, v: u32) -> Seq<u8> {
        decimal(v as nat)
    }

    fn write(&self, out: &mut Vec<u8>, v: &NzNumber) {
        write_number(out, v.get())
    }
}

fn write_part(out: &mut Vec<u8>, p: &Part)
    ensures
        final(out)@ == old(out)@ + spec_write_part(p.deep_view()),
{
    let dot = [DOT];
    write_joined(&NzNumberWriter, out, p.0.as_slice_dv(), dot.as_slice());
    assert(dot@ =~= seq![DOT]);
    assert(written(NzNumberWriter, p.deep_view()) =~= p.deep_view().map_values(|n: u32| decimal(n as nat)));
}

/// Writes a header field name.
pub struct AStringWriter;

impl Writer for AStringWriter {
    type In = crate::strings::AString;

    open spec fn spec_write(&self, v: StrV) -> Seq<u8> {
        crate::strings::spec_write_str(v)
    }

    fn write(&self, out: &mut Vec<u8>, v: &crate::strings::AString) {
        crate::strings::write_astring(out, v)
    }
}

/// A part and a dot before what follows it, or nothing.
pub open spec fn spec_write_part_prefix(p: Option<Seq<u32>>) -> Seq<u8> {
    match p {
        Some(p) => spec_write_part(p) + seq![DOT],
        None => seq![],
    }
}

/// How a section's specification is written.
pub open spec fn spec_write_section_spec(sec: SectionV) -> Seq<u8> {
    match sec {
        SectionV::Part(p) => spec_write_part(p),
        SectionV::Header(p) => spec_write_part_prefix(p) + HEADER@,
        SectionV::HeaderFields(p, l) => spec_write_part_prefix(p) + HEADER_FIELDS_SP@ + seq![LPAREN]
            + join(written(AStringWriter, l), seq![SP]) + seq![RPAREN],
        SectionV::HeaderFieldsNot(p, l) => spec_write_part_prefix(p) + HEADER_FIELDS_NOT_SP@ + seq![LPAREN]
            + join(written(AStringWriter, l), seq![SP]) + seq![RPAREN],
        SectionV::Text(p) => spec_write_part_prefix(p) + TEXT@,
        SectionV::Mime(p) => spec_write_part(p) + seq![DOT] + MIME@,
    }
}

fn write_part_prefix(out: &mut Vec<u8>, p: &Option<Part>)
    ensures
        final(out)@ == old(out)@ + spec_write_part_prefix(opt_part_view(*p)),
{
    let ghost start = old(out)@;
    match p {
        Some(p) => {
            write_part(out, p);
            out.push(DOT);
        },
        None => {},
    }
    assert(out@ =~= start + spec_write_part_prefix(opt_part_view(*p)));
}

fn write_header_list(out: &mut Vec<u8>, l: &Vec1<crate::strings::AString>)
    ensures
        final(out)@ == old(out)@ + seq![LPAREN] + join(written(AStringWriter, l.deep_view()), seq![SP]) + seq![RPAREN],
{
    let ghost start = old(out)@;
    out.push(LPAREN);
    let sp = [SP];
    write_joined(&AStringWriter, out, l.as_slice_dv(), sp.as_slice());
    out.push(RPAREN);
    assert(sp@ =~= seq![SP]);
    assert(out@ =~= start + seq![LPAREN] + join(written(AStringWriter, l.deep_view()), seq![SP]) + seq![RPAREN]);
}

/// Writes a section's specification.
pub fn write_section_spec(out: &mut Vec<u8>, sec: &Section)
    ensures
        final(out)@ == old(out)@ + spec_write_section_spec(sec.deep_view()),
{
    let ghost start = old(out)@;
    match sec {
        Section::Part(p) => write_part(out, p),
        Section::Header(p) => {
            write_part_prefix(out, p);
            put(out, HEADER.as_slice());
        },
        Section::HeaderFields(p, l) => {
            write_part_prefix(out, p);
            put(out, HEADER_FIELDS_SP.as_slice());
            write_header_list(out, l);
        },
        Section::HeaderFieldsNot(p, l) => {
            write_part_prefix(out, p);
            put(out, HEADER_FIELDS_NOT_SP.as_slice());
            write_header_list(out, l);
        },
        Section::Text(p) => {
            write_part_prefix(out, p);
            put(out, TEXT.as_slice());
        },
        Section::Mime(p) => {
            write_part(out, p);
            out.push(DOT);
            put(out, MIME.as_slice());
        },
    }
    assert(out@ =~= start + spec_write_section_spec(sec.deep_view()));
}

} // verus!

verus! {

// ---------------------------------------------------------------------
// What a `FETCH` asks for.

/// `ENVELOPE`
pub const ENVELOPE: [u8; 8] = [69, 78, 86, 69, 76, 79, 80, 69];
/// `FLAGS`
pub const FLAGS: [u8; 5] = [70, 76, 65, 71, 83];
/// `INTERNALDATE`
pub const INTERNALDATE: [u8; 12] = [73, 78, 84, 69, 82, 78, 65, 76, 68, 65, 84, 69];
/// `BODYSTRUCTURE`
pub const BODYSTRUCTURE: [u8; 13] = [66, 79, 68, 89, 83, 84, 82, 85, 67, 84, 85, 82, 69];
/// `BODY.PEEK`
pub const BODY_PEEK: [u8; 9] = [66, 79, 68, 89, 46, 80, 69, 69, 75];
/// `BODY`
pub const BODY: [u8; 4] = [66, 79, 68, 89];
/// `UID`
pub const UID: [u8; 3] = [85, 73, 68];
/// `RFC822.HEADER`
pub const RFC822_HEADER: [u8; 13] = [82, 70, 67, 56, 50, 50, 46, 72, 69, 65, 68, 69, 82];
/// `RFC822.SIZE`
pub const RFC822_SIZE: [u8; 11] = [82, 70, 67, 56, 50, 50, 46, 83, 73, 90, 69];
/// `RFC822.TEXT`
pub const RFC822_TEXT: [u8; 11] = [82, 70, 67, 56, 50, 50, 46, 84, 69, 88, 84];
/// `RFC822`
pub const RFC822: [u8; 6] = [82, 70, 67, 56, 50, 50];
/// `EMAILID`
pub const EMAILID: [u8; 7] = [69, 77, 65, 73, 76, 73, 68];
/// `THREADID`
pub const THREADID: [u8; 8] = [84, 72, 82, 69, 65, 68, 73, 68];
/// `PREVIEW`
pub const PREVIEW: [u8; 7] = [80, 82, 69, 86, 73, 69, 87];
/// ` (LAZY)`
pub const SP_LAZY: [u8; 7] = [32, 40, 76, 65, 90, 89, 41];
/// `FAST`
pub const FAST: [u8; 4] = [70, 65, 83, 84];
/// `FULL`
pub const FULL: [u8; 4] = [70, 85, 76, 76];
/// `FLAGS `
pub const FLAGS_SP: [u8; 6] = [70, 76, 65, 71, 83, 32];
/// `RFC822.SIZE `
pub const RFC822_SIZE_SP: [u8; 12] = [82, 70, 67, 56, 50, 50, 46, 83, 73, 90, 69, 32];
/// `THREADID `
pub const THREADID_SP: [u8; 9] = [84, 72, 82, 69, 65, 68, 73, 68, 32];
/// `PREVIEW `
pub const PREVIEW_SP: [u8; 8] = [80, 82, 69, 86, 73, 69, 87, 32];

/// An item a `FETCH` asks for: `fetch-att`.
#[derive(Debug, PartialEq, Eq, Hash)]
pub enum MessageDataItemName {
    /// `BODY`: the body structure, without extensions.
    Body,
    /// `BODY[section]<partial>` or `BODY.PEEK[section]<partial>`: a
    /// section, or the whole message, from an octet on, for a count of
    /// octets; `peek` leaves `\Seen` alone.
    BodyExt {
        section: Option<Section>,
        partial: Option<(u32, NzNumber)>,
        peek: bool,
    },
    /// `BODYSTRUCTURE`.
    BodyStructure,
    /// `ENVELOPE`.
    Envelope,
    /// `FLAGS`.
    Flags,
    /// `INTERNALDATE`.
    InternalDate,
    /// `RFC822`.
    Rfc822,
    /// `RFC822.HEADER`.
    Rfc822Header,
    /// `RFC822.SIZE`.
    Rfc822Size,
    /// `RFC822.TEXT`.
    Rfc822Text,
    /// `UID`.
    Uid,
    /// `EMAILID` (RFC 8474 Section 5.1).
    EmailId,
    /// `THREADID` (RFC 8474 Section 5.2).
    ThreadId,
    /// `PREVIEW`, with `(LAZY)` when a preview that is not at hand may be
    /// left out (RFC 8970).
    Preview { lazy: bool },
}

/// The model of a [`MessageDataItemName`].
pub enum MessageDataItemNameV {
    Body,
    BodyExt { section: Option<SectionV>, partial: Option<(u32, u32)>, peek: bool },
    BodyStructure,
    Envelope,
    Flags,
    InternalDate,
    Rfc822,
    Rfc822Header,
    Rfc822Size,
    Rfc822Text,
    Uid,
    EmailId,
    ThreadId,
    Preview { lazy: bool },
}

/// The model of an optional section.
pub open spec fn opt_section_view(s: Option<Section>) -> Option<SectionV> {
    match s {
        Some(x) => Some(x.deep_view()),
        None => None,
    }
}

/// The model of an optional partial range.
pub open spec fn opt_partial_view(p: Option<(u32, NzNumber)>) -> Option<(u32, u32)> {
    match p {
        Some((a, b)) => Some((a, b.deep_view())),
        None => None,
    }
}

impl DeepView for MessageDataItemName {
    type V = MessageDataItemNameV;

    open spec fn deep_view(&self) -> MessageDataItemNameV {
        match self {
            MessageDataItemName::Body => MessageDataItemNameV::Body,
            MessageDataItemName::BodyExt { section, partial, peek } => MessageDataItemNameV::BodyExt {
                section: opt_section_view(*section),
                partial: opt_partial_view(*partial),
                peek: *peek,
            },
            MessageDataItemName::BodyStructure => MessageDataItemNameV::BodyStructure,
            MessageDataItemName::Envelope => MessageDataItemNameV::Envelope,
            MessageDataItemName::Flags => MessageDataItemNameV::Flags,
            MessageDataItemName::InternalDate => MessageDataItemNameV::InternalDate,
            MessageDataItemName::Rfc822 => MessageDataItemNameV::Rfc822,
            MessageDataItemName::Rfc822Header => MessageDataItemNameV::Rfc822Header,
            MessageDataItemName::Rfc822Size => MessageDataItemNameV::Rfc822Size,
            MessageDataItemName::Rfc822Text => MessageDataItemNameV::Rfc822Text,
            MessageDataItemName::Uid => MessageDataItemNameV::Uid,
            MessageDataItemName::EmailId => MessageDataItemNameV::EmailId,
            MessageDataItemName::ThreadId => MessageDataItemNameV::ThreadId,
            MessageDataItemName::Preview { lazy } => MessageDataItemNameV::Preview { lazy: *lazy },
        }
    }
}

/// `["<" number "." nz-number ">"]`: a partial range, or none; reading it
/// never fails.
pub open spec fn spec_partial(s: Seq<u8>, i: int) -> (Option<(u32, u32)>, int) {
    if spec_byte(s, i, LANGLE) {
        match spec_number(s, i + 1) {
            Some((a, j)) => if spec_byte(s, j, DOT) {
                match spec_nz_number(s, j + 1) {
                    Some((b, k)) => if spec_byte(s, k, RANGLE) {
                        (Some((a, b)), k + 1)
                    } else {
                        (None, i)
                    },
                    None => (None, i),
                }
            } else {
                (None, i)
            },
            None => (None, i),
        }
    } else {
        (None, i)
    }
}

fn read_partial(s: &[u8], i: usize) -> (r: (Option<(u32, NzNumber)>, usize))
    requires
        i <= s@.len(),
    ensures
        (opt_partial_view(r.0), r.1 as int) == spec_partial(s@, i as int),
        i <= r.1 <= s@.len(),
{
    if byte(s, i, LANGLE) {
        if let Some((a, j)) = read_number(s, i + 1) {
            if byte(s, j, DOT) {
                if let Some((b, k)) = NzNumberRule.read(s, j + 1) {
                    if byte(s, k, RANGLE) {
                        return (Some((a, b)), k + 1);
                    }
                }
            }
        }
    }
    (None, i)
}

/// `"BODY.PEEK" section [partial]` or `"BODY" section [partial]`, with or
/// without `.PEEK` as `kw` says.
pub open spec fn spec_body_ext(s: Seq<u8>, i: int, kw: Seq<u8>, peek: bool) -> Option<(MessageDataItemNameV, int)> {
    if spec_keyword(s, i, kw) {
        match spec_section(s, i + kw.len()) {
            Some((sec, j)) => {
                let (p, k) = spec_partial(s, j);
                Some((MessageDataItemNameV::BodyExt { section: sec, partial: p, peek }, k))
            },
            None => None,
        }
    } else {
        None
    }
}

fn read_body_ext(s: &[u8], i: usize, kw: &[u8], peek: bool) -> (r: Option<(MessageDataItemName, usize)>)
    requires
        i <= s@.len(),
    ensures
        read_view(r) == spec_body_ext(s@, i as int, kw@, peek),
        r matches Some((_, j)) ==> i <= j <= s@.len(),
{
    if keyword(s, i, kw) {
        match read_section(s, i + kw.len()) {
            Some((sec, j)) => {
                let (p, k) = read_partial(s, j);
                Some((MessageDataItemName::BodyExt { section: sec, partial: p, peek }, k))
            },
            None => None,
        }
    } else {
        None
    }
}

/// `fetch-att`: the items in the order they are tried, the longer of two
/// words that begin alike first.
pub open spec fn spec_fetch_att(s: Seq<u8>, i: int) -> Option<(MessageDataItemNameV, int)> {
    let r = crate::search::flag(s, i, ENVELOPE@, MessageDataItemNameV::Envelope);
    let r = crate::search::alt(r, crate::search::flag(s, i, FLAGS@, MessageDataItemNameV::Flags));
    let r = crate::search::alt(r, crate::search::flag(s, i, INTERNALDATE@, MessageDataItemNameV::InternalDate));
    let r = crate::search::alt(r, crate::search::flag(s, i, BODYSTRUCTURE@, MessageDataItemNameV::BodyStructure));
    let r = crate::search::alt(r, spec_body_ext(s, i, BODY_PEEK@, true));
    let r = crate::search::alt(r, spec_body_ext(s, i, BODY@, false));
    let r = crate::search::alt(r, crate::search::flag(s, i, BODY@, MessageDataItemNameV::Body));
    let r = crate::search::alt(r, crate::search::flag(s, i, UID@, MessageDataItemNameV::Uid));
    let r = crate::search::alt(r, crate::search::flag(s, i, RFC822_HEADER@, MessageDataItemNameV::Rfc822Header));
    let r = crate::search::alt(r, crate::search::flag(s, i, RFC822_SIZE@, MessageDataItemNameV::Rfc822Size));
    let r = crate::search::alt(r, crate::search::flag(s, i, RFC822_TEXT@, MessageDataItemNameV::Rfc822Text));
    let r = crate::search::alt(r, crate::search::flag(s, i, RFC822@, MessageDataItemNameV::Rfc822));
    let r = crate::search::alt(r, crate::search::flag(s, i, EMAILID@, MessageDataItemNameV::EmailId));
    let r = crate::search::alt(r, crate::search::flag(s, i, THREADID@, MessageDataItemNameV::ThreadId));
    crate::search::alt(r, if spec_keyword(s, i, PREVIEW@) {
        if spec_keyword(s, i + 7, SP_LAZY@) {
            Some((MessageDataItemNameV::Preview { lazy: true }, i + 14))
        } else {
            Some((MessageDataItemNameV::Preview { lazy: false }, i + 7))
        }
    } else {
        None
    })
}

/// The rule `fetch-att`.
pub struct FetchAttRule;

impl Rule for FetchAttRule {
    type Out = MessageDataItemName;

    open spec fn spec_read(&self, s: Seq<u8>, i: int) -> Option<(MessageDataItemNameV, int)> {
        spec_fetch_att(s, i)
    }

    fn read(&self, s: &[u8], i: usize) -> (r: Option<(MessageDataItemName, usize)>) {
        let k = ENVELOPE;
        if keyword(s, i, k.as_slice()) {
            return Some((MessageDataItemName::Envelope, i + k.len()));
        }
        let k = FLAGS;
        if keyword(s, i, k.as_slice()) {
            return Some((MessageDataItemName::Flags, i + k.len()));
        }
        let k = INTERNALDATE;
        if keyword(s, i, k.as_slice()) {
            return Some((MessageDataItemName::InternalDate, i + k.len()));
        }
        let k = BODYSTRUCTURE;
        if keyword(s, i, k.as_slice()) {
            return Some((MessageDataItemName::BodyStructure, i + k.len()));
        }
        let k = BODY_PEEK;
        if let Some(x) = read_body_ext(s, i, k.as_slice(), true) {
            return Some(x);
        }
        let k = BODY;
        if let Some(x) = read_body_ext(s, i, k.as_slice(), false) {
            return Some(x);
        }
        if keyword(s, i, k.as_slice()) {
            return Some((MessageDataItemName::Body, i + k.len()));
        }
        let k = UID;
        if keyword(s, i, k.as_slice()) {
            return Some((MessageDataItemName::Uid, i + k.len()));
        }
        let k = RFC822_HEADER;
        if keyword(s, i, k.as_slice()) {
            return Some((MessageDataItemName::Rfc822Header, i + k.len()));
        }
        let k = RFC822_SIZE;
        if keyword(s, i, k.as_slice()) {
            return Some((MessageDataItemName::Rfc822Size, i + k.len()));
        }
        let k = RFC822_TEXT;
        if keyword(s, i, k.as_slice()) {
            return Some((MessageDataItemName::Rfc822Text, i + k.len()));
        }
        let k = RFC822;
        if keyword(s, i, k.as_slice()) {
            return Some((MessageDataItemName::Rfc822, i + k.len()));
        }
        let k = EMAILID;
        if keyword(s, i, k.as_slice()) {
            return Some((MessageDataItemName::EmailId, i + k.len()));
        }
        let k = THREADID;
        if keyword(s, i, k.as_slice()) {
            return Some((MessageDataItemName::ThreadId, i + k.len()));
        }
        let k = PREVIEW;
        if keyword(s, i, k.as_slice()) {
            let lazy = SP_LAZY;
            if keyword(s, i + 7, lazy.as_slice()) {
                return Some((MessageDataItemName::Preview { lazy: true }, i + 14));
            } else {
                return Some((MessageDataItemName::Preview { lazy: false }, i + 7));
            }
        }
        None
    }
}

/// How a section is written, brackets included.
pub open spec fn spec_write_section(sec: Option<SectionV>) -> Seq<u8> {
    seq![LBRACKET] + match sec {
        Some(x) => spec_write_section_spec(x),
        None => seq![],
    } + seq![RBRACKET]
}

/// How an item name is written.
pub open spec fn spec_write_fetch_att(a: MessageDataItemNameV) -> Seq<u8> {
    match a {
        MessageDataItemNameV::Body => BODY@,
        MessageDataItemNameV::BodyExt { section, partial, peek } => (if peek {
            BODY_PEEK@
        } else {
            BODY@
        }) + spec_write_section(section) + match partial {
            Some((a, b)) => seq![LANGLE] + decimal(a as nat) + seq![DOT] + decimal(b as nat) + seq![RANGLE],
            None => seq![],
        },
        MessageDataItemNameV::BodyStructure => BODYSTRUCTURE@,
        MessageDataItemNameV::Envelope => ENVELOPE@,
        MessageDataItemNameV::Flags => FLAGS@,
        MessageDataItemNameV::InternalDate => INTERNALDATE@,
        MessageDataItemNameV::Rfc822 => RFC822@,
        MessageDataItemNameV::Rfc822Header => RFC822_HEADER@,
        MessageDataItemNameV::Rfc822Size => RFC822_SIZE@,
        MessageDataItemNameV::Rfc822Text => RFC822_TEXT@,
        MessageDataItemNameV::Uid => UID@,
        MessageDataItemNameV::EmailId => EMAILID@,
        MessageDataItemNameV::ThreadId => THREADID@,
        MessageDataItemNameV::Preview { lazy } => PREVIEW@ + if lazy {
            SP_LAZY@
        } else {
            seq![]
        },
    }
}

/// Writes item names.
pub struct FetchAttWriter;

impl Writer for FetchAttWriter {
    type In = MessageDataItemName;

    open spec fn spec_write(&self, v: MessageDataItemNameV) -> Seq<u8> {
        spec_write_fetch_att(v)
    }

    fn write(&self, out: &mut Vec<u8>, v: &MessageDataItemName) {
        let ghost start = old(out)@;
        match v {
            MessageDataItemName::Body => put(out, BODY.as_slice()),
            MessageDataItemName::BodyExt { section, partial, peek } => {
                if *peek {
                    put(out, BODY_PEEK.as_slice());
                } else {
                    put(out, BODY.as_slice());
                }
                let ghost a = out@;
                out.push(LBRACKET);
                match section {
                    Some(x) => write_section_spec(out, x),
                    None => {},
                }
                out.push(RBRACKET);
                assert(out@ =~= a + spec_write_section(opt_section_view(*section)));
                match partial {
                    Some((a, b)) => {
                        out.push(LANGLE);
                        write_number(out, *a);
                        out.push(DOT);
                        write_number(out, b.get());
                        out.push(RANGLE);
                    },
                    None => {},
                }
            },
            MessageDataItemName::BodyStructure => put(out, BODYSTRUCTURE.as_slice()),
            MessageDataItemName::Envelope => put(out, ENVELOPE.as_slice()),
            MessageDataItemName::Flags => put(out, FLAGS.as_slice()),
            MessageDataItemName::InternalDate => put(out, INTERNALDATE.as_slice()),
            MessageDataItemName::Rfc822 => put(out, RFC822.as_slice()),
            MessageDataItemName::Rfc822Header => put(out, RFC822_HEADER.as_slice()),
            MessageDataItemName::Rfc822Size => put(out, RFC822_SIZE.as_slice()),
            MessageDataItemName::Rfc822Text => put(out, RFC822_TEXT.as_slice()),
            MessageDataItemName::Uid => put(out, UID.as_slice()),
            MessageDataItemName::EmailId => put(out, EMAILID.as_slice()),
            MessageDataItemName::ThreadId => put(out, THREADID.as_slice()),
            MessageDataItemName::Preview { lazy } => {
                put(out, PREVIEW.as_slice());
                if *lazy {
                    put(out, SP_LAZY.as_slice());
                }
            },
        }
        assert(out@ =~= start + spec_write_fetch_att(v.deep_view()));
    }
}

/// A shorthand for several items.
#[derive(Clone, Copy, Debug, PartialEq, Eq, Hash)]
pub enum Macro {
    /// `ALL`: `FLAGS INTERNALDATE RFC822.SIZE ENVELOPE`.
    All,
    /// `FAST`: `FLAGS INTERNALDATE RFC822.SIZE`.
    Fast,
    /// `FULL`: `FLAGS INTERNALDATE RFC822.SIZE ENVELOPE BODY`.
    Full,
}

/// What a `FETCH` asks for: a shorthand, or items.
#[derive(Debug, PartialEq, Eq, Hash)]
pub enum MacroOrMessageDataItemNames {
    Macro(Macro),
    MessageDataItemNames(Vec<MessageDataItemName>),
}

/// The model of [`MacroOrMessageDataItemNames`].
pub enum MacroOrItemsV {
    Macro(Macro),
    Items(Seq<MessageDataItemNameV>),
}

impl DeepView for MacroOrMessageDataItemNames {
    type V = MacroOrItemsV;

    open spec fn deep_view(&self) -> MacroOrItemsV {
        match self {
            MacroOrMessageDataItemNames::Macro(m) => MacroOrItemsV::Macro(*m),
            MacroOrMessageDataItemNames::MessageDataItemNames(v) => MacroOrItemsV::Items(v.deep_view()),
        }
    }
}

/// `"ALL" / "FULL" / "FAST" / fetch-att / "(" fetch-att *(SP fetch-att)
/// ")"`
pub open spec fn spec_macro_or_items(s: Seq<u8>, i: int) -> Option<(MacroOrItemsV, int)> {
    let r = crate::search::flag(s, i, crate::search::ALL@, MacroOrItemsV::Macro(Macro::All));
    let r = crate::search::alt(r, crate::search::flag(s, i, FAST@, MacroOrItemsV::Macro(Macro::Fast)));
    let r = crate::search::alt(r, crate::search::flag(s, i, FULL@, MacroOrItemsV::Macro(Macro::Full)));
    let r = crate::search::alt(r, match spec_fetch_att(s, i) {
        Some((a, j)) => Some((MacroOrItemsV::Items(seq![a]), j)),
        None => None,
    });
    crate::search::alt(r, match spec_paren_list(FetchAttRule, s, i, false) {
        Some((v, j)) => Some((MacroOrItemsV::Items(v), j)),
        None => None,
    })
}

/// Reads what a `FETCH` asks for at `i`.
pub fn read_macro_or_items(s: &[u8], i: usize) -> (r: Option<(MacroOrMessageDataItemNames, usize)>)
    requires
        i <= s@.len(),
    ensures
        read_view(r) == spec_macro_or_items(s@, i as int),
        r matches Some((_, j)) ==> i <= j <= s@.len(),
{
    let k = crate::search::ALL;
    if keyword(s, i, k.as_slice()) {
        return Some((MacroOrMessageDataItemNames::Macro(Macro::All), i + 3));
    }
    let k = FAST;
    if keyword(s, i, k.as_slice()) {
        return Some((MacroOrMessageDataItemNames::Macro(Macro::Fast), i + 4));
    }
    let k = FULL;
    if keyword(s, i, k.as_slice()) {
        return Some((MacroOrMessageDataItemNames::Macro(Macro::Full), i + 4));
    }
    if let Some((a, j)) = FetchAttRule.read(s, i) {
        let ghost av = a.deep_view();
        let mut v = Vec::new();
        v.push(a);
        assert(v.deep_view() =~= seq![av]);
        return Some((MacroOrMessageDataItemNames::MessageDataItemNames(v), j));
    }
    match read_paren_list(&FetchAttRule, s, i, false) {
        Some((v, j)) => Some((MacroOrMessageDataItemNames::MessageDataItemNames(v), j)),
        None => None,
    }
}

/// How what a `FETCH` asks for is written: one item alone, several in
/// parentheses.
pub open spec fn spec_write_macro_or_items(m: MacroOrItemsV) -> Seq<u8> {
    match m {
        MacroOrItemsV::Macro(Macro::All) => crate::search::ALL@,
        MacroOrItemsV::Macro(Macro::Fast) => FAST@,
        MacroOrItemsV::Macro(Macro::Full) => FULL@,
        MacroOrItemsV::Items(v) => if v.len() == 1 {
            spec_write_fetch_att(v[0])
        } else {
            seq![LPAREN] + join(written(FetchAttWriter, v), seq![SP]) + seq![RPAREN]
        },
    }
}

/// Writes what a `FETCH` asks for.
pub fn write_macro_or_items(out: &mut Vec<u8>, m: &MacroOrMessageDataItemNames)
    ensures
        final(out)@ == old(out)@ + spec_write_macro_or_items(m.deep_view()),
{
    let ghost start = old(out)@;
    match m {
        MacroOrMessageDataItemNames::Macro(Macro::All) => put(out, crate::search::ALL.as_slice()),
        MacroOrMessageDataItemNames::Macro(Macro::Fast) => put(out, FAST.as_slice()),
        MacroOrMessageDataItemNames::Macro(Macro::Full) => put(out, FULL.as_slice()),
        MacroOrMessageDataItemNames::MessageDataItemNames(v) => {
            if v.len() == 1 {
                FetchAttWriter.write(out, &v[0]);
                assert(v@[0].deep_view() == v.deep_view()[0]);
            } else {
                out.push(LPAREN);
                let sp = [SP];
                write_joined(&FetchAttWriter, out, v.as_slice(), sp.as_slice());
                out.push(RPAREN);
                assert(sp@ =~= seq![SP]);
                assert(out@ =~= start + spec_write_macro_or_items(m.deep_view()));
            }
        },
    }
}

} // verus!

verus! {

// ---------------------------------------------------------------------
// What a `FETCH` response carries.

/// An item of a `FETCH` response: a part of `msg-att`.
#[derive(Debug, PartialEq, Eq, Hash)]
pub enum MessageDataItem {
    /// `FLAGS`
    Flags(Vec<Flag>),
    /// `RFC822.SIZE`
    Rfc822Size(u32),
    /// `UID`
    Uid(NzNumber),
    /// `EMAILID "(" objectid ")"` (RFC 8474 Section 5.1).
    EmailId(crate::objectid::ObjectId),
    /// `THREADID ("(" objectid ")" / nil)` (RFC 8474 Section 5.2): `NIL`
    /// where the server does not thread the message.
    ThreadId(Option<crate::objectid::ObjectId>),
    /// `PREVIEW nstring` (RFC 8970): `NIL` where no preview is at hand.
    Preview(crate::strings::NString),
}

/// The model of a [`MessageDataItem`].
pub enum MessageDataItemV {
    Flags(Seq<FlagV>),
    Rfc822Size(u32),
    Uid(u32),
    EmailId(Seq<u8>),
    ThreadId(Option<Seq<u8>>),
    Preview(Option<StrV>),
}

impl DeepView for MessageDataItem {
    type V = MessageDataItemV;

    open spec fn deep_view(&self) -> MessageDataItemV {
        match self {
            MessageDataItem::Flags(f) => MessageDataItemV::Flags(f.deep_view()),
            MessageDataItem::Rfc822Size(n) => MessageDataItemV::Rfc822Size(*n),
            MessageDataItem::Uid(n) => MessageDataItemV::Uid(n.deep_view()),
            MessageDataItem::EmailId(o) => MessageDataItemV::EmailId(o.deep_view()),
            MessageDataItem::ThreadId(o) => MessageDataItemV::ThreadId(match o {
                Some(o) => Some(o.deep_view()),
                None => None,
            }),
            MessageDataItem::Preview(p) => MessageDataItemV::Preview(p.deep_view()),
        }
    }
}

/// `"(" objectid ")"`
pub open spec fn spec_paren_objectid(s: Seq<u8>, i: int) -> Option<(Seq<u8>, int)> {
    if spec_byte(s, i, LPAREN) {
        match crate::objectid::spec_objectid(s, i + 1) {
            Some((o, j)) => if spec_byte(s, j, RPAREN) {
                Some((o, j + 1))
            } else {
                None
            },
            None => None,
        }
    } else {
        None
    }
}

pub fn read_paren_objectid(s: &[u8], i: usize) -> (r: Option<(crate::objectid::ObjectId, usize)>)
    requires
        i <= s@.len(),
    ensures
        read_view(r) == spec_paren_objectid(s@, i as int),
        r matches Some((_, j)) ==> i < j <= s@.len(),
{
    if byte(s, i, LPAREN) {
        if let Some((o, j)) = crate::objectid::read_objectid(s, i + 1) {
            if byte(s, j, RPAREN) {
                return Some((o, j + 1));
            }
        }
    }
    None
}

/// `"THREADID" SP ("(" objectid ")" / nil)`
pub open spec fn spec_threadid_item(s: Seq<u8>, i: int) -> Option<(MessageDataItemV, int)> {
    if spec_keyword(s, i, THREADID_SP@) {
        match spec_paren_objectid(s, i + 9) {
            Some((o, j)) => Some((MessageDataItemV::ThreadId(Some(o)), j)),
            None => if spec_keyword(s, i + 9, crate::strings::NIL@) {
                Some((MessageDataItemV::ThreadId(None), i + 12))
            } else {
                None
            },
        }
    } else {
        None
    }
}

/// An item of `msg-att`: the items in the order they are tried.
pub open spec fn spec_msg_att_item(s: Seq<u8>, i: int) -> Option<(MessageDataItemV, int)> {
    let r = crate::search::map_value(crate::search::after_keyword(s, i, FLAGS_SP@, |j: int| spec_flag_list(s, j)), |x: Seq<FlagV>| MessageDataItemV::Flags(x));
    let r = crate::search::alt(r, crate::search::map_value(crate::search::after_keyword(s, i, RFC822_SIZE_SP@, |j: int| spec_number(s, j)), |x: u32| MessageDataItemV::Rfc822Size(x)));
    let r = crate::search::alt(r, crate::search::map_value(crate::search::after_keyword(s, i, crate::search::UID_SP@, |j: int| spec_nz_number(s, j)), |x: u32| MessageDataItemV::Uid(x)));
    let r = crate::search::alt(r, crate::search::map_value(crate::search::after_keyword(s, i, crate::search::EMAILID_SP@, |j: int| spec_paren_objectid(s, j)), |x: Seq<u8>| MessageDataItemV::EmailId(x)));
    let r = crate::search::alt(r, spec_threadid_item(s, i));
    crate::search::alt(r, crate::search::map_value(crate::search::after_keyword(s, i, PREVIEW_SP@, |j: int| crate::strings::spec_nstring(s, j)), |x: Option<StrV>| MessageDataItemV::Preview(x)))
}

/// The rule for an item of `msg-att`.
pub struct MsgAttItemRule;

impl Rule for MsgAttItemRule {
    type Out = MessageDataItem;

    open spec fn spec_read(&self, s: Seq<u8>, i: int) -> Option<(MessageDataItemV, int)> {
        spec_msg_att_item(s, i)
    }

    fn read(&self, s: &[u8], i: usize) -> (r: Option<(MessageDataItem, usize)>) {
        let k = FLAGS_SP;
        if keyword(s, i, k.as_slice()) {
            if let Some((f, j)) = read_paren_list(&FlagRule, s, i + 6, true) {
                return Some((MessageDataItem::Flags(f), j));
            }
        }
        let k = RFC822_SIZE_SP;
        if keyword(s, i, k.as_slice()) {
            if let Some((n, j)) = read_number(s, i + 12) {
                return Some((MessageDataItem::Rfc822Size(n), j));
            }
        }
        let k = crate::search::UID_SP;
        if keyword(s, i, k.as_slice()) {
            if let Some((n, j)) = NzNumberRule.read(s, i + 4) {
                return Some((MessageDataItem::Uid(n), j));
            }
        }
        let k = crate::search::EMAILID_SP;
        if keyword(s, i, k.as_slice()) {
            if let Some((o, j)) = read_paren_objectid(s, i + 8) {
                return Some((MessageDataItem::EmailId(o), j));
            }
        }
        let k = THREADID_SP;
        if keyword(s, i, k.as_slice()) {
            if let Some((o, j)) = read_paren_objectid(s, i + 9) {
                return Some((MessageDataItem::ThreadId(Some(o)), j));
            }
            let nil = crate::strings::NIL;
            if keyword(s, i + 9, nil.as_slice()) {
                return Some((MessageDataItem::ThreadId(None), i + 12));
            }
        }
        let k = PREVIEW_SP;
        if keyword(s, i, k.as_slice()) {
            if let Some((p, j)) = crate::strings::read_nstring(s, i + 8) {
                return Some((MessageDataItem::Preview(p), j));
            }
        }
        None
    }
}

/// `msg-att = "(" item *(SP item) ")"`
pub open spec fn spec_msg_att(s: Seq<u8>, i: int) -> Option<(Seq<MessageDataItemV>, int)> {
    spec_paren_list(MsgAttItemRule, s, i, false)
}

/// How an item of `msg-att` is written.
pub open spec fn spec_write_msg_att_item(v: MessageDataItemV) -> Seq<u8> {
    match v {
        MessageDataItemV::Flags(f) => FLAGS_SP@ + spec_write_flag_list(f),
        MessageDataItemV::Rfc822Size(n) => RFC822_SIZE_SP@ + decimal(n as nat),
        MessageDataItemV::Uid(n) => crate::search::UID_SP@ + decimal(n as nat),
        MessageDataItemV::EmailId(o) => crate::search::EMAILID_SP@ + seq![LPAREN] + o + seq![RPAREN],
        MessageDataItemV::ThreadId(Some(o)) => THREADID_SP@ + seq![LPAREN] + o + seq![RPAREN],
        MessageDataItemV::ThreadId(None) => THREADID_SP@ + crate::strings::NIL@,
        MessageDataItemV::Preview(p) => PREVIEW_SP@ + crate::strings::spec_write_nstring(p),
    }
}

/// Writes items of `msg-att`.
pub struct MsgAttItemWriter;

impl Writer for MsgAttItemWriter {
    type In = MessageDataItem;

    open spec fn spec_write(&self, v: MessageDataItemV) -> Seq<u8> {
        spec_write_msg_att_item(v)
    }

    fn write(&self, out: &mut Vec<u8>, v: &MessageDataItem) {
        let ghost start = old(out)@;
        match v {
            MessageDataItem::Flags(f) => {
                put(out, FLAGS_SP.as_slice());
                write_flag_list(out, f.as_slice());
            },
            MessageDataItem::Rfc822Size(n) => {
                put(out, RFC822_SIZE_SP.as_slice());
                write_number(out, *n);
            },
            MessageDataItem::Uid(n) => {
                put(out, crate::search::UID_SP.as_slice());
                write_number(out, n.get());
            },
            MessageDataItem::EmailId(o) => {
                put(out, crate::search::EMAILID_SP.as_slice());
                out.push(LPAREN);
                put(out, o.inner());
                out.push(RPAREN);
            },
            MessageDataItem::ThreadId(Some(o)) => {
                put(out, THREADID_SP.as_slice());
                out.push(LPAREN);
                put(out, o.inner());
                out.push(RPAREN);
            },
            MessageDataItem::ThreadId(None) => {
                put(out, THREADID_SP.as_slice());
                put(out, crate::strings::NIL.as_slice());
            },
            MessageDataItem::Preview(p) => {
                put(out, PREVIEW_SP.as_slice());
                crate::strings::write_nstring(out, p);
            },
        }
        assert(out@ =~= start + spec_write_msg_att_item(v.deep_view()));
    }
}

// ---------------------------------------------------------------------
// What is written reads back.

/// Whether a flag can be written and read back: its name is an atom.
pub open spec fn writable_flag(f: FlagV) -> bool {
    match f {
        FlagV::System(a) => a.len() > 0 && crate::chars::all_in(a, crate::chars::ByteClass::Atom),
        FlagV::Keyword(a) => a.len() > 0 && crate::chars::all_in(a, crate::chars::ByteClass::Atom),
    }
}

/// Whether every flag can be written and read back.
pub open spec fn writable_flags(fs: Seq<FlagV>) -> bool {
    forall|k: int| 0 <= k < fs.len() ==> writable_flag(#[trigger] fs[k])
}

/// A flag, written at `i` and followed by a byte that no atom holds,
/// reads back.
pub proof fn lemma_flag_round_trip(f: FlagV, s: Seq<u8>, i: int)
    requires
        writable_flag(f),
        0 <= i,
        i + spec_write_flag(f).len() < s.len(),
        s.subrange(i, i + spec_write_flag(f).len()) == spec_write_flag(f),
        !crate::chars::ByteClass::Atom.spec_has(s[i + spec_write_flag(f).len()]),
    ensures
        spec_flag(s, i) == Some((f, i + spec_write_flag(f).len())),
{
    let w = spec_write_flag(f);
    assert(s[i] == w[0]);
    match f {
        FlagV::System(a) => {
            crate::chars::lemma_part(s, i, w, 1, a.len() as int);
            assert(w.subrange(1, w.len() as int) =~= a);
            crate::strings::lemma_atom_round_trip(a, s, i + 1);
        },
        FlagV::Keyword(a) => {
            assert(crate::chars::ByteClass::Atom.spec_has(a[0]));
            crate::strings::lemma_atom_round_trip(a, s, i);
        },
    }
}

/// A flag list written at `i` reads back.
pub proof fn lemma_flag_list_round_trip(fs: Seq<FlagV>, s: Seq<u8>, i: int)
    requires
        writable_flags(fs),
        0 <= i,
        i + spec_write_flag_list(fs).len() <= s.len(),
        s.subrange(i, i + spec_write_flag_list(fs).len()) == spec_write_flag_list(fs),
    ensures
        spec_flag_list(s, i) == Some((fs, i + spec_write_flag_list(fs).len())),
{
    let ws = written(FlagWriter, fs);
    let after = |b: u8| b == SP || b == RPAREN;
    assert forall|k: int, q: int| 0 <= k < fs.len() implies #[trigger] crate::rule::reads_at(FlagRule, s, q, fs[k], ws[k], after) by {
        assert(ws[k] == spec_write_flag(fs[k]));
        if 0 <= q && q + ws[k].len() < s.len() && s.subrange(q, q + ws[k].len()) == ws[k] && after(s[q + ws[k].len()]) {
            lemma_flag_round_trip(fs[k], s, q);
        }
    }
    if fs.len() == 0 {
        assert(join(ws, seq![SP]) == Seq::<u8>::empty());
        assert(s[i + 1] == spec_write_flag_list(fs)[1]);
    }
    crate::rule::lemma_paren_list_round_trip(FlagRule, fs, ws, s, i, true, after);
}

} // verus!

verus! {

// ---------------------------------------------------------------------
// What is written of an item name reads back.

/// Whether a part can be written and read back: not empty, and no number
/// in it zero.
pub open spec fn writable_part(p: Seq<u32>) -> bool {
    p.len() > 0 && forall|k: int| 0 <= k < p.len() ==> #[trigger] p[k] != 0
}

/// Whether an optional part can be written and read back.
pub open spec fn writable_opt_part(p: Option<Seq<u32>>) -> bool {
    p matches Some(q) ==> writable_part(q)
}

/// Whether header field names can be written and read back as a list.
pub open spec fn writable_header_list(l: Seq<StrV>) -> bool {
    l.len() > 0 && forall|k: int| 0 <= k < l.len() ==> crate::strings::writable_str(#[trigger] l[k])
}

/// Whether a section's specification can be written and read back.
pub open spec fn writable_section_spec(sec: SectionV) -> bool {
    match sec {
        SectionV::Part(p) => writable_part(p),
        SectionV::Mime(p) => writable_part(p),
        SectionV::Header(p) => writable_opt_part(p),
        SectionV::Text(p) => writable_opt_part(p),
        SectionV::HeaderFields(p, l) => writable_opt_part(p) && writable_header_list(l),
        SectionV::HeaderFieldsNot(p, l) => writable_opt_part(p) && writable_header_list(l),
    }
}

/// Whether an item name can be written and read back: its section and
/// its partial range, where it has them, can.
pub open spec fn writable_fetch_att(a: MessageDataItemNameV) -> bool {
    match a {
        MessageDataItemNameV::BodyExt { section, partial, .. } => (section matches Some(x)
            ==> writable_section_spec(x)) && (partial matches Some(r) ==> r.1 != 0),
        _ => true,
    }
}

/// How a partial range is written, or nothing.
pub open spec fn spec_write_partial(p: Option<(u32, u32)>) -> Seq<u8> {
    match p {
        Some((a, b)) => seq![LANGLE] + decimal(a as nat) + seq![DOT] + decimal(b as nat) + seq![RANGLE],
        None => seq![],
    }
}

/// The part a section names, if any.
pub open spec fn section_part_of(sec: SectionV) -> Option<Seq<u32>> {
    match sec {
        SectionV::Part(p) => Some(p),
        SectionV::Mime(p) => Some(p),
        SectionV::Header(p) => p,
        SectionV::Text(p) => p,
        SectionV::HeaderFields(p, _) => p,
        SectionV::HeaderFieldsNot(p, _) => p,
    }
}

/// How the text of a section is written, after its part.
pub open spec fn spec_write_msgtext(sec: SectionV) -> Seq<u8> {
    match sec {
        SectionV::Header(_) => HEADER@,
        SectionV::Text(_) => TEXT@,
        SectionV::HeaderFields(_, l) => HEADER_FIELDS_SP@ + seq![LPAREN] + join(written(AStringWriter, l), seq![SP])
            + seq![RPAREN],
        SectionV::HeaderFieldsNot(_, l) => HEADER_FIELDS_NOT_SP@ + seq![LPAREN] + join(
            written(AStringWriter, l),
            seq![SP],
        ) + seq![RPAREN],
        SectionV::Mime(_) => MIME@,
        SectionV::Part(_) => seq![],
    }
}

/// A part written at `i`, and followed by a byte that is not a digit
/// and, where that byte is a dot, by another that is not a digit, reads
/// back; it begins with a digit.
#[verifier::rlimit(100)]
#[verifier::spinoff_prover]
proof fn lemma_part_round_trip(p: Seq<u32>, s: Seq<u8>, i: int)
    requires
        writable_part(p),
        0 <= i,
        i + spec_write_part(p).len() < s.len(),
        s.subrange(i, i + spec_write_part(p).len()) == spec_write_part(p),
        !crate::chars::is_digit(s[i + spec_write_part(p).len()]),
        s[i + spec_write_part(p).len()] == DOT ==> i + spec_write_part(p).len() + 1 < s.len()
            && !crate::chars::is_digit(s[i + spec_write_part(p).len() + 1]),
    ensures
        spec_section_part(s, i) == Some((p, i + spec_write_part(p).len())),
        crate::chars::is_digit(s[i]),
{
    let ws = written(NzNumberWriter, p);
    assert(ws =~= p.map_values(|n: u32| decimal(n as nat)));
    let e = i + spec_write_part(p).len();
    let after = |b: u8| !crate::chars::is_digit(b);
    assert forall|k: int, q: int| 0 <= k < p.len() implies #[trigger] crate::rule::reads_at(NzNumberRule, s, q, p[k], ws[k], after) by {
        assert(ws[k] == decimal(p[k] as nat));
        if 0 <= q && q + ws[k].len() < s.len() && s.subrange(q, q + ws[k].len()) == ws[k] && after(s[q + ws[k].len()]) {
            crate::num::lemma_nz_number_round_trip(p[k], s, q);
        }
    }
    if s[e] == DOT {
        assert(crate::chars::scan_end(s, e + 1, crate::chars::ByteClass::Digit) == e + 1);
    }
    crate::rule::lemma_separated_round_trip(NzNumberRule, p, ws, s, i, DOT, after);
    crate::rule::lemma_join_front(ws, seq![DOT]);
    crate::num::lemma_decimal(p[0] as nat);
    assert(s[i] == spec_write_part(p)[0]);
    assert(spec_write_part(p)[0] == ws[0][0]);
}

/// Header field names, written as a list at `i`, read back.
#[verifier::rlimit(100)]
#[verifier::spinoff_prover]
proof fn lemma_header_list_round_trip(l: Seq<StrV>, s: Seq<u8>, i: int)
    requires
        writable_header_list(l),
        0 <= i,
        i + join(written(AStringWriter, l), seq![SP]).len() + 2 <= s.len(),
        s.subrange(i, i + join(written(AStringWriter, l), seq![SP]).len() + 2) == seq![LPAREN] + join(
            written(AStringWriter, l),
            seq![SP],
        ) + seq![RPAREN],
    ensures
        spec_header_list(s, i) == Some((l, i + join(written(AStringWriter, l), seq![SP]).len() + 2)),
{
    let ws = written(AStringWriter, l);
    let after = |b: u8| b == SP || b == RPAREN;
    assert forall|k: int, q: int| 0 <= k < l.len() implies #[trigger] crate::rule::reads_at(AStringRule, s, q, l[k], ws[k], after) by {
        assert(ws[k] == crate::strings::spec_write_str(l[k]));
        if 0 <= q && q + ws[k].len() < s.len() && s.subrange(q, q + ws[k].len()) == ws[k] && after(s[q + ws[k].len()]) {
            crate::strings::lemma_astring_round_trip(l[k], s, q);
        }
    }
    crate::rule::lemma_paren_list_round_trip(AStringRule, l, ws, s, i, false, after);
}

/// The text of a section, written at `i` and followed by `]`, reads back
/// for the part it names.
#[verifier::rlimit(100)]
#[verifier::spinoff_prover]
proof fn lemma_msgtext_round_trip(sec: SectionV, s: Seq<u8>, i: int)
    requires
        !(sec is Part) && !(sec is Mime),
        writable_section_spec(sec),
        0 <= i,
        i + spec_write_msgtext(sec).len() < s.len(),
        s.subrange(i, i + spec_write_msgtext(sec).len()) == spec_write_msgtext(sec),
        s[i + spec_write_msgtext(sec).len()] == RBRACKET,
    ensures
        spec_section_msgtext(s, i, section_part_of(sec)) == Some((sec, i + spec_write_msgtext(sec).len())),
        s[i] == 72 || s[i] == 84,
{
    let w = spec_write_msgtext(sec);
    let n = i + w.len();
    assert forall|k: int| 0 <= k < w.len() implies s[i + k] == #[trigger] w[k] by {
        assert(s[i + k] == s.subrange(i, n)[k]);
    }
    match sec {
        SectionV::HeaderFieldsNot(p, l) => {
            let jw = join(written(AStringWriter, l), seq![SP]);
            crate::chars::lemma_part(s, i, w, 0, 18);
            assert(w.subrange(0, 18) =~= HEADER_FIELDS_NOT_SP@);
            crate::chars::lemma_keyword_at(s, i, HEADER_FIELDS_NOT_SP@);
            crate::chars::lemma_part(s, i, w, 18, jw.len() + 2int);
            assert(w.subrange(18, 18 + jw.len() + 2int) =~= seq![LPAREN] + jw + seq![RPAREN]);
            lemma_header_list_round_trip(l, s, i + 18);
        },
        SectionV::HeaderFields(p, l) => {
            let jw = join(written(AStringWriter, l), seq![SP]);
            crate::chars::lemma_part(s, i, w, 0, 14);
            assert(w.subrange(0, 14) =~= HEADER_FIELDS_SP@);
            crate::chars::lemma_keyword_at(s, i, HEADER_FIELDS_SP@);
            assert(s[i + 13] == w[13]);
            crate::chars::lemma_not_keyword(s, i, HEADER_FIELDS_NOT_SP@, 13);
            crate::chars::lemma_part(s, i, w, 14, jw.len() + 2int);
            assert(w.subrange(14, 14 + jw.len() + 2int) =~= seq![LPAREN] + jw + seq![RPAREN]);
            lemma_header_list_round_trip(l, s, i + 14);
        },
        SectionV::Header(p) => {
            assert(w =~= HEADER@);
            crate::chars::lemma_keyword_at(s, i, HEADER@);
            crate::chars::lemma_not_keyword(s, i, HEADER_FIELDS_NOT_SP@, 6);
            crate::chars::lemma_not_keyword(s, i, HEADER_FIELDS_SP@, 6);
        },
        SectionV::Text(p) => {
            assert(w =~= TEXT@);
            assert(s[i + 0] == w[0]);
            crate::chars::lemma_keyword_at(s, i, TEXT@);
            crate::chars::lemma_not_keyword(s, i, HEADER_FIELDS_NOT_SP@, 0);
            crate::chars::lemma_not_keyword(s, i, HEADER_FIELDS_SP@, 0);
            crate::chars::lemma_not_keyword(s, i, HEADER@, 0);
        },
        _ => {},
    }
}

/// At a digit or a `]`, no text of a section is read.
proof fn lemma_no_msgtext(s: Seq<u8>, i: int, p: Option<Seq<u32>>)
    requires
        0 <= i < s.len(),
        crate::chars::is_digit(s[i]) || s[i] == RBRACKET || s[i] == 77,
    ensures
        spec_section_msgtext(s, i, p) is None,
{
    crate::chars::lemma_not_keyword(s, i, HEADER_FIELDS_NOT_SP@, 0);
    crate::chars::lemma_not_keyword(s, i, HEADER_FIELDS_SP@, 0);
    crate::chars::lemma_not_keyword(s, i, HEADER@, 0);
    crate::chars::lemma_not_keyword(s, i, TEXT@, 0);
}

/// A section's specification, written at `i` and followed by `]`, reads back.
#[verifier::rlimit(100)]
#[verifier::spinoff_prover]
proof fn lemma_section_spec_round_trip(sec: SectionV, s: Seq<u8>, i: int)
    requires
        writable_section_spec(sec),
        0 <= i,
        i + spec_write_section_spec(sec).len() < s.len(),
        s.subrange(i, i + spec_write_section_spec(sec).len()) == spec_write_section_spec(sec),
        s[i + spec_write_section_spec(sec).len()] == RBRACKET,
    ensures
        spec_section_spec(s, i) == Some((sec, i + spec_write_section_spec(sec).len())),
        crate::chars::is_digit(s[i]) || s[i] == 72 || s[i] == 84,
{
    let w = spec_write_section_spec(sec);
    let n = i + w.len();
    match sec {
        SectionV::Part(p) => {
            assert(w == spec_write_part(p));
            lemma_part_round_trip(p, s, i);
            lemma_no_msgtext(s, i, None);
        },
        SectionV::Mime(p) => {
            let wp = spec_write_part(p);
            assert(w =~= wp + seq![DOT] + MIME@);
            crate::chars::lemma_part(s, i, w, 0, wp.len() as int);
            assert(w.subrange(0, wp.len() as int) =~= wp);
            let e = i + wp.len();
            assert(s[e] == w[wp.len() as int]);
            assert(s[e + 1] == w[wp.len() + 1int]);
            lemma_part_round_trip(p, s, i);
            lemma_no_msgtext(s, i, None);
            lemma_no_msgtext(s, e + 1, Some(p));
            crate::chars::lemma_part(s, i, w, wp.len() + 1int, 4);
            assert(w.subrange(wp.len() + 1int, wp.len() + 5int) =~= MIME@);
            crate::chars::lemma_keyword_at(s, e + 1, MIME@);
        },
        _ => {
            let wt = spec_write_msgtext(sec);
            match section_part_of(sec) {
                None => {
                    assert(w =~= wt);
                    lemma_msgtext_round_trip(sec, s, i);
                },
                Some(p) => {
                    let wp = spec_write_part(p);
                    assert(w =~= wp + seq![DOT] + wt);
                    crate::chars::lemma_part(s, i, w, 0, wp.len() as int);
                    assert(w.subrange(0, wp.len() as int) =~= wp);
                    let e = i + wp.len();
                    crate::chars::lemma_part(s, i, w, wp.len() + 1int, wt.len() as int);
                    assert(w.subrange(wp.len() + 1int, wp.len() + 1int + wt.len()) =~= wt);
                    lemma_msgtext_round_trip(sec, s, e + 1);
                    assert(s[e] == w[wp.len() as int]);
                    lemma_part_round_trip(p, s, i);
                    lemma_no_msgtext(s, i, None);
                },
            }
        },
    }
}

/// A section, brackets included, written at `i` reads back.
#[verifier::rlimit(100)]
#[verifier::spinoff_prover]
proof fn lemma_section_round_trip(sec: Option<SectionV>, s: Seq<u8>, i: int)
    requires
        sec matches Some(x) ==> writable_section_spec(x),
        0 <= i,
        i + spec_write_section(sec).len() <= s.len(),
        s.subrange(i, i + spec_write_section(sec).len()) == spec_write_section(sec),
    ensures
        spec_section(s, i) == Some((sec, i + spec_write_section(sec).len())),
{
    let w = spec_write_section(sec);
    assert(s[i] == w[0]);
    match sec {
        None => {
            assert(w =~= seq![LBRACKET, RBRACKET]);
            assert(s[i + 1] == w[1]);
            lemma_no_msgtext(s, i + 1, None);
            assert(crate::chars::scan_end(s, i + 1, crate::chars::ByteClass::Digit) == i + 1);
            assert(spec_section_part(s, i + 1) is None);
        },
        Some(x) => {
            let ws = spec_write_section_spec(x);
            assert(w =~= seq![LBRACKET] + ws + seq![RBRACKET]);
            crate::chars::lemma_part(s, i, w, 1, ws.len() as int);
            assert(w.subrange(1, 1 + ws.len() as int) =~= ws);
            assert(s[i + 1 + ws.len()] == w[w.len() - 1]);
            lemma_section_spec_round_trip(x, s, i + 1);
        },
    }
}

/// A partial range written at `i`, and followed by a byte other than `<`,
/// reads back.
#[verifier::rlimit(100)]
#[verifier::spinoff_prover]
proof fn lemma_partial_round_trip(p: Option<(u32, u32)>, s: Seq<u8>, i: int)
    requires
        p matches Some(r) ==> r.1 != 0,
        0 <= i,
        i + spec_write_partial(p).len() < s.len(),
        s.subrange(i, i + spec_write_partial(p).len()) == spec_write_partial(p),
        s[i + spec_write_partial(p).len()] != LANGLE,
        !crate::chars::is_digit(s[i + spec_write_partial(p).len()]),
    ensures
        spec_partial(s, i) == (p, i + spec_write_partial(p).len()),
{
    match p {
        None => {},
        Some((a, b)) => {
            let w = spec_write_partial(p);
            let da = decimal(a as nat);
            let db = decimal(b as nat);
            assert(w =~= seq![LANGLE] + da + seq![DOT] + db + seq![RANGLE]);
            assert(s[i] == w[0]);
            crate::chars::lemma_part(s, i, w, 1, da.len() as int);
            assert(w.subrange(1, 1 + da.len() as int) =~= da);
            let j = i + 1 + da.len();
            assert(s[j] == w[1 + da.len() as int]);
            crate::num::lemma_number_round_trip(a, s, i + 1);
            crate::chars::lemma_part(s, i, w, 2 + da.len() as int, db.len() as int);
            assert(w.subrange(2 + da.len() as int, 2 + da.len() + db.len() as int) =~= db);
            let k = j + 1 + db.len();
            assert(s[k] == w[w.len() - 1]);
            crate::num::lemma_nz_number_round_trip(b, s, j + 1);
        },
    }
}

} // verus!

verus! {

/// How an extended body item is written: its word, its section, its range.
proof fn lemma_body_ext_bytes(a: MessageDataItemNameV)
    requires
        a is BodyExt,
    ensures
        spec_write_fetch_att(a) == (if a->peek { BODY_PEEK@ } else { BODY@ }) + spec_write_section(a->section)
            + spec_write_partial(a->partial),
{
}

/// An extended body item written at `i`, after its word `kw`, and followed
/// by a space, `)` or CR, reads back by `spec_body_ext`.
#[verifier::rlimit(100)]
#[verifier::spinoff_prover]
proof fn lemma_body_ext_round_trip(a: MessageDataItemNameV, s: Seq<u8>, i: int, kw: Seq<u8>)
    requires
        a is BodyExt,
        writable_fetch_att(a),
        kw == (if a->peek { BODY_PEEK@ } else { BODY@ }),
        0 <= i,
        i + spec_write_fetch_att(a).len() < s.len(),
        s.subrange(i, i + spec_write_fetch_att(a).len()) == spec_write_fetch_att(a),
        s[i + spec_write_fetch_att(a).len()] == SP || s[i + spec_write_fetch_att(a).len()] == RPAREN
            || s[i + spec_write_fetch_att(a).len()] == CR,
    ensures
        spec_body_ext(s, i, kw, a->peek) == Some((a, i + spec_write_fetch_att(a).len())),
        s[i + kw.len()] == LBRACKET,
{
    lemma_body_ext_bytes(a);
    let w = spec_write_fetch_att(a);
    let wsec = spec_write_section(a->section);
    let wp = spec_write_partial(a->partial);
    assert(w =~= kw + wsec + wp);
    crate::chars::lemma_part(s, i, w, 0, kw.len() as int);
    assert(w.subrange(0, kw.len() as int) =~= kw);
    crate::chars::lemma_keyword_at(s, i, kw);
    crate::chars::lemma_part(s, i, w, kw.len() as int, wsec.len() as int);
    assert(w.subrange(kw.len() as int, kw.len() + wsec.len() as int) =~= wsec);
    lemma_section_round_trip(a->section, s, i + kw.len());
    assert(s[i + kw.len()] == w[kw.len() as int]);
    let j = i + kw.len() + wsec.len();
    crate::chars::lemma_part(s, i, w, kw.len() + wsec.len() as int, wp.len() as int);
    assert(w.subrange(kw.len() + wsec.len() as int, w.len() as int) =~= wp);
    lemma_partial_round_trip(a->partial, s, j);
}

/// An item name written at `i`, followed by a space, `)` or CR, and,
/// where a space, by no `(`, reads back; it does not begin with `A`, nor
/// with `F` but for `FL`.
#[verifier::rlimit(100)]
#[verifier::spinoff_prover]
pub proof fn lemma_fetch_att_round_trip(a: MessageDataItemNameV, s: Seq<u8>, i: int)
    requires
        writable_fetch_att(a),
        0 <= i,
        i + spec_write_fetch_att(a).len() < s.len(),
        s.subrange(i, i + spec_write_fetch_att(a).len()) == spec_write_fetch_att(a),
        s[i + spec_write_fetch_att(a).len()] == SP || s[i + spec_write_fetch_att(a).len()] == RPAREN
            || s[i + spec_write_fetch_att(a).len()] == CR,
        s[i + spec_write_fetch_att(a).len()] == SP ==> i + spec_write_fetch_att(a).len() + 1 < s.len()
            && s[i + spec_write_fetch_att(a).len() + 1] != LPAREN,
    ensures
        spec_fetch_att(s, i) == Some((a, i + spec_write_fetch_att(a).len())),
        s[i] != LPAREN,
        crate::chars::to_lower(s[i]) != 97,
        crate::chars::to_lower(s[i]) == 102 ==> crate::chars::to_lower(s[i + 1]) == 108,
        spec_write_fetch_att(a).len() >= 3,
{
    let w = spec_write_fetch_att(a);
    let n = i + w.len();
    assert forall|k: int| 0 <= k < w.len() implies s[i + k] == #[trigger] w[k] by {
        assert(s[i + k] == s.subrange(i, n)[k]);
    }
    match a {
        MessageDataItemNameV::Envelope => {
            assert(w =~= ENVELOPE@);
            assert(s[i + 0] == w[0]);
            crate::chars::lemma_keyword_at(s, i, ENVELOPE@);
        },
        MessageDataItemNameV::Flags => {
            assert(w =~= FLAGS@);
            assert(s[i + 0] == w[0]);
            assert(s[i + 1] == w[1]);
            crate::chars::lemma_not_keyword(s, i, ENVELOPE@, 0);
            crate::chars::lemma_keyword_at(s, i, FLAGS@);
        },
        MessageDataItemNameV::InternalDate => {
            assert(w =~= INTERNALDATE@);
            assert(s[i + 0] == w[0]);
            crate::chars::lemma_not_keyword(s, i, ENVELOPE@, 0);
            crate::chars::lemma_not_keyword(s, i, FLAGS@, 0);
            crate::chars::lemma_keyword_at(s, i, INTERNALDATE@);
        },
        MessageDataItemNameV::BodyStructure => {
            assert(w =~= BODYSTRUCTURE@);
            assert(s[i + 0] == w[0]);
            crate::chars::lemma_not_keyword(s, i, ENVELOPE@, 0);
            crate::chars::lemma_not_keyword(s, i, FLAGS@, 0);
            crate::chars::lemma_not_keyword(s, i, INTERNALDATE@, 0);
            crate::chars::lemma_keyword_at(s, i, BODYSTRUCTURE@);
        },
        MessageDataItemNameV::BodyExt { section, partial, peek } => {
            assert(s[i + 0] == w[0]);
            crate::chars::lemma_not_keyword(s, i, ENVELOPE@, 0);
            crate::chars::lemma_not_keyword(s, i, FLAGS@, 0);
            crate::chars::lemma_not_keyword(s, i, INTERNALDATE@, 0);
            if peek {
                lemma_body_ext_round_trip(a, s, i, BODY_PEEK@);
                assert(s[i + 4] == w[4]);
                crate::chars::lemma_not_keyword(s, i, BODYSTRUCTURE@, 4);
            } else {
                lemma_body_ext_round_trip(a, s, i, BODY@);
                crate::chars::lemma_not_keyword(s, i, BODYSTRUCTURE@, 4);
                crate::chars::lemma_not_keyword(s, i, BODY_PEEK@, 4);
            }
        },
        MessageDataItemNameV::Body => {
            assert(w =~= BODY@);
            assert(s[i + 0] == w[0]);
            crate::chars::lemma_not_keyword(s, i, ENVELOPE@, 0);
            crate::chars::lemma_not_keyword(s, i, FLAGS@, 0);
            crate::chars::lemma_not_keyword(s, i, INTERNALDATE@, 0);
            crate::chars::lemma_not_keyword(s, i, BODYSTRUCTURE@, 4);
            crate::chars::lemma_not_keyword(s, i, BODY_PEEK@, 4);
            crate::chars::lemma_keyword_at(s, i, BODY@);
        },
        MessageDataItemNameV::Uid => {
            assert(w =~= UID@);
            assert(s[i + 0] == w[0]);
            lemma_fetch_att_first(s, i);
            crate::chars::lemma_keyword_at(s, i, UID@);
        },
        MessageDataItemNameV::Rfc822Header => {
            assert(w =~= RFC822_HEADER@);
            assert(s[i + 0] == w[0]);
            lemma_fetch_att_first(s, i);
            crate::chars::lemma_not_keyword(s, i, UID@, 0);
            crate::chars::lemma_keyword_at(s, i, RFC822_HEADER@);
        },
        MessageDataItemNameV::Rfc822Size => {
            assert(w =~= RFC822_SIZE@);
            assert(s[i + 0] == w[0]);
            assert(s[i + 7] == w[7]);
            lemma_fetch_att_first(s, i);
            crate::chars::lemma_not_keyword(s, i, UID@, 0);
            crate::chars::lemma_not_keyword(s, i, RFC822_HEADER@, 7);
            crate::chars::lemma_keyword_at(s, i, RFC822_SIZE@);
        },
        MessageDataItemNameV::Rfc822Text => {
            assert(w =~= RFC822_TEXT@);
            assert(s[i + 0] == w[0]);
            assert(s[i + 7] == w[7]);
            lemma_fetch_att_first(s, i);
            crate::chars::lemma_not_keyword(s, i, UID@, 0);
            crate::chars::lemma_not_keyword(s, i, RFC822_HEADER@, 7);
            crate::chars::lemma_not_keyword(s, i, RFC822_SIZE@, 7);
            crate::chars::lemma_keyword_at(s, i, RFC822_TEXT@);
        },
        MessageDataItemNameV::Rfc822 => {
            assert(w =~= RFC822@);
            assert(s[i + 0] == w[0]);
            lemma_fetch_att_first(s, i);
            crate::chars::lemma_not_keyword(s, i, UID@, 0);
            crate::chars::lemma_not_keyword(s, i, RFC822_HEADER@, 6);
            crate::chars::lemma_not_keyword(s, i, RFC822_SIZE@, 6);
            crate::chars::lemma_not_keyword(s, i, RFC822_TEXT@, 6);
            crate::chars::lemma_keyword_at(s, i, RFC822@);
        },
        MessageDataItemNameV::EmailId => {
            assert(w =~= EMAILID@);
            assert(s[i + 0] == w[0]);
            assert(s[i + 1] == w[1]);
            crate::chars::lemma_not_keyword(s, i, ENVELOPE@, 1);
            lemma_fetch_att_later(s, i);
            crate::chars::lemma_keyword_at(s, i, EMAILID@);
        },
        MessageDataItemNameV::ThreadId => {
            assert(w =~= THREADID@);
            assert(s[i + 0] == w[0]);
            crate::chars::lemma_not_keyword(s, i, ENVELOPE@, 0);
            lemma_fetch_att_later(s, i);
            crate::chars::lemma_not_keyword(s, i, EMAILID@, 0);
            crate::chars::lemma_keyword_at(s, i, THREADID@);
        },
        MessageDataItemNameV::Preview { lazy } => {
            assert(s[i + 0] == w[0]);
            crate::chars::lemma_not_keyword(s, i, ENVELOPE@, 0);
            lemma_fetch_att_later(s, i);
            crate::chars::lemma_not_keyword(s, i, EMAILID@, 0);
            crate::chars::lemma_not_keyword(s, i, THREADID@, 0);
            crate::chars::lemma_part(s, i, w, 0, 7);
            assert(w.subrange(0, 7) =~= PREVIEW@);
            crate::chars::lemma_keyword_at(s, i, PREVIEW@);
            if lazy {
                crate::chars::lemma_part(s, i, w, 7, 7);
                assert(w.subrange(7, 14) =~= SP_LAZY@);
                crate::chars::lemma_keyword_at(s, i + 7, SP_LAZY@);
            } else {
                assert(w =~= PREVIEW@);
                if s[i + 7] == SP {
                    crate::chars::lemma_not_keyword(s, i + 7, SP_LAZY@, 1);
                } else {
                    crate::chars::lemma_not_keyword(s, i + 7, SP_LAZY@, 0);
                }
            }
        },
    }
}

/// Where a byte other than `E`, `F`, `I` and `B` begins, none of the items
/// tried first stands.
proof fn lemma_fetch_att_first(s: Seq<u8>, i: int)
    requires
        0 <= i < s.len(),
        crate::chars::to_lower(s[i]) != 101,
        crate::chars::to_lower(s[i]) != 102,
        crate::chars::to_lower(s[i]) != 105,
        crate::chars::to_lower(s[i]) != 98,
    ensures
        !spec_keyword(s, i, ENVELOPE@),
        !spec_keyword(s, i, FLAGS@),
        !spec_keyword(s, i, INTERNALDATE@),
        !spec_keyword(s, i, BODYSTRUCTURE@),
        !spec_keyword(s, i, BODY_PEEK@),
        !spec_keyword(s, i, BODY@),
{
    crate::chars::lemma_not_keyword(s, i, ENVELOPE@, 0);
    crate::chars::lemma_not_keyword(s, i, FLAGS@, 0);
    crate::chars::lemma_not_keyword(s, i, INTERNALDATE@, 0);
    crate::chars::lemma_not_keyword(s, i, BODYSTRUCTURE@, 0);
    crate::chars::lemma_not_keyword(s, i, BODY_PEEK@, 0);
    crate::chars::lemma_not_keyword(s, i, BODY@, 0);
}

/// Where a byte other than `E`, `F`, `I`, `B`, `U` and `R` begins, none of
/// the items tried before `EMAILID` stands but for `ENVELOPE`.
proof fn lemma_fetch_att_later(s: Seq<u8>, i: int)
    requires
        0 <= i < s.len(),
        crate::chars::to_lower(s[i]) != 102,
        crate::chars::to_lower(s[i]) != 105,
        crate::chars::to_lower(s[i]) != 98,
        crate::chars::to_lower(s[i]) != 117,
        crate::chars::to_lower(s[i]) != 114,
    ensures
        !spec_keyword(s, i, FLAGS@),
        !spec_keyword(s, i, INTERNALDATE@),
        !spec_keyword(s, i, BODYSTRUCTURE@),
        !spec_keyword(s, i, BODY_PEEK@),
        !spec_keyword(s, i, BODY@),
        !spec_keyword(s, i, UID@),
        !spec_keyword(s, i, RFC822_HEADER@),
        !spec_keyword(s, i, RFC822_SIZE@),
        !spec_keyword(s, i, RFC822_TEXT@),
        !spec_keyword(s, i, RFC822@),
{
    crate::chars::lemma_not_keyword(s, i, FLAGS@, 0);
    crate::chars::lemma_not_keyword(s, i, INTERNALDATE@, 0);
    crate::chars::lemma_not_keyword(s, i, BODYSTRUCTURE@, 0);
    crate::chars::lemma_not_keyword(s, i, BODY_PEEK@, 0);
    crate::chars::lemma_not_keyword(s, i, BODY@, 0);
    crate::chars::lemma_not_keyword(s, i, UID@, 0);
    crate::chars::lemma_not_keyword(s, i, RFC822_HEADER@, 0);
    crate::chars::lemma_not_keyword(s, i, RFC822_SIZE@, 0);
    crate::chars::lemma_not_keyword(s, i, RFC822_TEXT@, 0);
    crate::chars::lemma_not_keyword(s, i, RFC822@, 0);
}

} // verus!

verus! {

/// Item names, each written after a space at `i`, and followed by `)`,
/// read back; where there is one, a space and no `(` stand at `i`.
#[verifier::rlimit(100)]
#[verifier::spinoff_prover]
proof fn lemma_fetch_atts_after_round_trip(v: Seq<MessageDataItemNameV>, s: Seq<u8>, i: int)
    requires
        forall|k: int| 0 <= k < v.len() ==> writable_fetch_att(#[trigger] v[k]),
        0 <= i,
        i + prefixed(written(FetchAttWriter, v), seq![SP]).len() + 1 < s.len(),
        s.subrange(i, i + prefixed(written(FetchAttWriter, v), seq![SP]).len())
            == prefixed(written(FetchAttWriter, v), seq![SP]),
        s[i + prefixed(written(FetchAttWriter, v), seq![SP]).len()] == RPAREN,
    ensures
        spec_preceded(FetchAttRule, s, i, SP) == (v, i + prefixed(written(FetchAttWriter, v), seq![SP]).len()),
        v.len() > 0 ==> s[i] == SP && s[i + 1] != LPAREN,
    decreases v.len(),
{
    let ws = written(FetchAttWriter, v);
    let pw = prefixed(ws, seq![SP]);
    if v.len() == 0 {
        assert(pw == Seq::<u8>::empty());
        assert(v =~= seq![]);
    } else {
        crate::rule::lemma_prefixed_front(ws, seq![SP]);
        let w0 = ws[0];
        let rest_v = v.drop_first();
        let rest_w = ws.drop_first();
        let p2 = prefixed(rest_w, seq![SP]);
        assert(pw =~= seq![SP] + w0 + p2);
        assert(written(FetchAttWriter, rest_v) =~= rest_w);
        assert(w0 == spec_write_fetch_att(v[0]));
        assert(s[i] == pw[0]);
        let j = i + 1 + w0.len();
        crate::chars::lemma_part(s, i, pw, 1, w0.len() as int);
        assert(pw.subrange(1, 1 + w0.len() as int) =~= w0);
        crate::chars::lemma_part(s, i, pw, 1 + w0.len() as int, p2.len() as int);
        assert(pw.subrange(1 + w0.len() as int, pw.len() as int) =~= p2);
        assert forall|k: int| 0 <= k < rest_v.len() implies writable_fetch_att(#[trigger] rest_v[k]) by {
            assert(rest_v[k] == v[k + 1]);
        }
        lemma_fetch_atts_after_round_trip(rest_v, s, j);
        if rest_v.len() > 0 {
            crate::rule::lemma_prefixed_front(rest_w, seq![SP]);
            assert(s[j] == p2[0]);
        }
        lemma_fetch_att_round_trip(v[0], s, i + 1);
        assert(seq![v[0]] + rest_v =~= v);
    }
}

/// Item names written as a parenthesized list at `i`, and followed by a
/// byte, read back.
#[verifier::rlimit(100)]
#[verifier::spinoff_prover]
pub proof fn lemma_fetch_att_list_round_trip(v: Seq<MessageDataItemNameV>, s: Seq<u8>, i: int)
    requires
        v.len() > 0,
        forall|k: int| 0 <= k < v.len() ==> writable_fetch_att(#[trigger] v[k]),
        0 <= i,
        i + join(written(FetchAttWriter, v), seq![SP]).len() + 2 < s.len(),
        s.subrange(i, i + join(written(FetchAttWriter, v), seq![SP]).len() + 2) == seq![LPAREN] + join(
            written(FetchAttWriter, v),
            seq![SP],
        ) + seq![RPAREN],
    ensures
        spec_paren_list(FetchAttRule, s, i, false) == Some((v, i + join(written(FetchAttWriter, v), seq![SP]).len() + 2)),
{
    let ws = written(FetchAttWriter, v);
    let jw = join(ws, seq![SP]);
    let w = seq![LPAREN] + jw + seq![RPAREN];
    crate::rule::lemma_join_front(ws, seq![SP]);
    let w0 = ws[0];
    let rest_v = v.drop_first();
    let rest_w = ws.drop_first();
    let p2 = prefixed(rest_w, seq![SP]);
    assert(jw =~= w0 + p2);
    assert(written(FetchAttWriter, rest_v) =~= rest_w);
    assert(w0 == spec_write_fetch_att(v[0]));
    assert(s[i] == w[0]);
    let j = i + 1 + w0.len();
    crate::chars::lemma_part(s, i, w, 1, w0.len() as int);
    assert(w.subrange(1, 1 + w0.len() as int) =~= w0);
    crate::chars::lemma_part(s, i, w, 1 + w0.len() as int, p2.len() as int);
    assert(w.subrange(1 + w0.len() as int, 1 + jw.len() as int) =~= p2);
    assert(s[i + 1 + jw.len()] == w[w.len() - 1]);
    assert forall|k: int| 0 <= k < rest_v.len() implies writable_fetch_att(#[trigger] rest_v[k]) by {
        assert(rest_v[k] == v[k + 1]);
    }
    lemma_fetch_atts_after_round_trip(rest_v, s, j);
    lemma_fetch_att_round_trip(v[0], s, i + 1);
    assert(seq![v[0]] + rest_v =~= v);
}

} // verus!

verus! {

/// Whether what a `FETCH` asks for can be written and read back: a macro,
/// or items that can, at least one.
pub open spec fn writable_macro_or_items(m: MacroOrItemsV) -> bool {
    match m {
        MacroOrItemsV::Macro(_) => true,
        MacroOrItemsV::Items(v) => v.len() > 0 && forall|k: int| 0 <= k < v.len() ==> writable_fetch_att(#[trigger] v[k]),
    }
}

/// At `(`, no item name is read.
proof fn lemma_no_fetch_att_at_paren(s: Seq<u8>, i: int)
    requires
        0 <= i < s.len(),
        s[i] == LPAREN,
    ensures
        spec_fetch_att(s, i) is None,
{
    lemma_fetch_att_first(s, i);
    crate::chars::lemma_not_keyword(s, i, UID@, 0);
    crate::chars::lemma_not_keyword(s, i, RFC822_HEADER@, 0);
    crate::chars::lemma_not_keyword(s, i, RFC822_SIZE@, 0);
    crate::chars::lemma_not_keyword(s, i, RFC822_TEXT@, 0);
    crate::chars::lemma_not_keyword(s, i, RFC822@, 0);
    crate::chars::lemma_not_keyword(s, i, EMAILID@, 0);
    crate::chars::lemma_not_keyword(s, i, THREADID@, 0);
    crate::chars::lemma_not_keyword(s, i, PREVIEW@, 0);
}

/// What a `FETCH` asks for, written at `i` and followed by CR, reads back.
#[verifier::rlimit(100)]
#[verifier::spinoff_prover]
pub proof fn lemma_macro_or_items_round_trip(m: MacroOrItemsV, s: Seq<u8>, i: int)
    requires
        writable_macro_or_items(m),
        0 <= i,
        i + spec_write_macro_or_items(m).len() < s.len(),
        s.subrange(i, i + spec_write_macro_or_items(m).len()) == spec_write_macro_or_items(m),
        s[i + spec_write_macro_or_items(m).len()] == CR,
    ensures
        spec_macro_or_items(s, i) == Some((m, i + spec_write_macro_or_items(m).len())),
{
    let w = spec_write_macro_or_items(m);
    let n = i + w.len();
    assert forall|k: int| 0 <= k < w.len() implies s[i + k] == #[trigger] w[k] by {
        assert(s[i + k] == s.subrange(i, n)[k]);
    }
    assert(s[i + 0] == w[0]);
    match m {
        MacroOrItemsV::Macro(Macro::All) => {
            assert(w =~= crate::search::ALL@);
            crate::chars::lemma_keyword_at(s, i, crate::search::ALL@);
        },
        MacroOrItemsV::Macro(Macro::Fast) => {
            assert(w =~= FAST@);
            crate::chars::lemma_not_keyword(s, i, crate::search::ALL@, 0);
            crate::chars::lemma_keyword_at(s, i, FAST@);
        },
        MacroOrItemsV::Macro(Macro::Full) => {
            assert(w =~= FULL@);
            assert(s[i + 1] == w[1]);
            crate::chars::lemma_not_keyword(s, i, crate::search::ALL@, 0);
            crate::chars::lemma_not_keyword(s, i, FAST@, 1);
            crate::chars::lemma_keyword_at(s, i, FULL@);
        },
        MacroOrItemsV::Items(v) => {
            if v.len() == 1 {
                assert(w == spec_write_fetch_att(v[0]));
                lemma_fetch_att_round_trip(v[0], s, i);
                crate::chars::lemma_not_keyword(s, i, crate::search::ALL@, 0);
                if crate::chars::to_lower(s[i]) == 102 {
                    crate::chars::lemma_not_keyword(s, i, FAST@, 1);
                    crate::chars::lemma_not_keyword(s, i, FULL@, 1);
                } else {
                    crate::chars::lemma_not_keyword(s, i, FAST@, 0);
                    crate::chars::lemma_not_keyword(s, i, FULL@, 0);
                }
                assert(seq![v[0]] =~= v);
            } else {
                assert(s[i] == LPAREN);
                crate::chars::lemma_not_keyword(s, i, crate::search::ALL@, 0);
                crate::chars::lemma_not_keyword(s, i, FAST@, 0);
                crate::chars::lemma_not_keyword(s, i, FULL@, 0);
                lemma_no_fetch_att_at_paren(s, i);
                lemma_fetch_att_list_round_trip(v, s, i);
            }
        },
    }
}

} // verus!

verus! {

/// Whether an item of `msg-att` can be written and read back.
pub open spec fn writable_msg_att_item(v: MessageDataItemV) -> bool {
    match v {
        MessageDataItemV::Flags(f) => writable_flags(f),
        MessageDataItemV::Uid(n) => n != 0,
        MessageDataItemV::EmailId(o) => crate::objectid::spec_objectid_check(o) is Ok,
        MessageDataItemV::ThreadId(Some(o)) => crate::objectid::spec_objectid_check(o) is Ok,
        MessageDataItemV::Preview(p) => crate::strings::writable_nstring(p),
        _ => true,
    }
}

/// An object identifier in parentheses, written at `i`, reads back.
proof fn lemma_paren_objectid_round_trip(o: Seq<u8>, s: Seq<u8>, i: int)
    requires
        crate::objectid::spec_objectid_check(o) is Ok,
        0 <= i,
        i + o.len() + 2 <= s.len(),
        s.subrange(i, i + o.len() + 2) == seq![LPAREN] + o + seq![RPAREN],
    ensures
        spec_paren_objectid(s, i) == Some((o, i + o.len() + 2)),
{
    let w = seq![LPAREN] + o + seq![RPAREN];
    assert(s[i] == w[0]);
    assert(s[i + 1 + o.len()] == w[1 + o.len() as int]);
    crate::chars::lemma_part(s, i, w, 1, o.len() as int);
    assert(w.subrange(1, 1 + o.len() as int) =~= o);
    crate::objectid::lemma_objectid_round_trip(o, s, i + 1);
}

/// An item of `msg-att`, written at `i` and followed by a space or `)`,
/// reads back.
#[verifier::rlimit(100)]
#[verifier::spinoff_prover]
pub proof fn lemma_msg_att_item_round_trip(v: MessageDataItemV, s: Seq<u8>, i: int)
    requires
        writable_msg_att_item(v),
        0 <= i,
        i + spec_write_msg_att_item(v).len() < s.len(),
        s.subrange(i, i + spec_write_msg_att_item(v).len()) == spec_write_msg_att_item(v),
        s[i + spec_write_msg_att_item(v).len()] == SP || s[i + spec_write_msg_att_item(v).len()] == RPAREN,
    ensures
        spec_msg_att_item(s, i) == Some((v, i + spec_write_msg_att_item(v).len())),
{
    let w = spec_write_msg_att_item(v);
    let n0 = i + w.len();
    assert forall|k: int| 0 <= k < w.len() implies s[i + k] == #[trigger] w[k] by {
        assert(s[i + k] == s.subrange(i, n0)[k]);
    }
    assert(s[i + 0] == w[0]);
    match v {
        MessageDataItemV::Flags(f) => {
            let wf = spec_write_flag_list(f);
            crate::chars::lemma_part(s, i, w, 0, 6);
            assert(w.subrange(0, 6) =~= FLAGS_SP@);
            crate::chars::lemma_keyword_at(s, i, FLAGS_SP@);
            crate::chars::lemma_part(s, i, w, 6, wf.len() as int);
            assert(w.subrange(6, 6 + wf.len() as int) =~= wf);
            lemma_flag_list_round_trip(f, s, i + 6);
        },
        MessageDataItemV::Rfc822Size(n) => {
            let d = decimal(n as nat);
            crate::chars::lemma_part(s, i, w, 0, 12);
            assert(w.subrange(0, 12) =~= RFC822_SIZE_SP@);
            crate::chars::lemma_keyword_at(s, i, RFC822_SIZE_SP@);
            crate::chars::lemma_part(s, i, w, 12, d.len() as int);
            assert(w.subrange(12, 12 + d.len() as int) =~= d);
            crate::num::lemma_number_round_trip(n, s, i + 12);
        },
        MessageDataItemV::Uid(n) => {
            let d = decimal(n as nat);
            crate::chars::lemma_part(s, i, w, 0, 4);
            assert(w.subrange(0, 4) =~= crate::search::UID_SP@);
            crate::chars::lemma_keyword_at(s, i, crate::search::UID_SP@);
            crate::chars::lemma_part(s, i, w, 4, d.len() as int);
            assert(w.subrange(4, 4 + d.len() as int) =~= d);
            crate::num::lemma_nz_number_round_trip(n, s, i + 4);
        },
        MessageDataItemV::EmailId(o) => {
            crate::chars::lemma_part(s, i, w, 0, 8);
            assert(w.subrange(0, 8) =~= crate::search::EMAILID_SP@);
            crate::chars::lemma_keyword_at(s, i, crate::search::EMAILID_SP@);
            crate::chars::lemma_part(s, i, w, 8, o.len() + 2int);
            assert(w.subrange(8, 8 + o.len() + 2int) =~= seq![LPAREN] + o + seq![RPAREN]);
            lemma_paren_objectid_round_trip(o, s, i + 8);
        },
        MessageDataItemV::ThreadId(t) => {
            crate::chars::lemma_part(s, i, w, 0, 9);
            assert(w.subrange(0, 9) =~= THREADID_SP@);
            crate::chars::lemma_keyword_at(s, i, THREADID_SP@);
            match t {
                Some(o) => {
                    crate::chars::lemma_part(s, i, w, 9, o.len() + 2int);
                    assert(w.subrange(9, 9 + o.len() + 2int) =~= seq![LPAREN] + o + seq![RPAREN]);
                    lemma_paren_objectid_round_trip(o, s, i + 9);
                },
                None => {
                    assert(s[i + 9] == w[9]);
                    crate::chars::lemma_part(s, i, w, 9, 3);
                    assert(w.subrange(9, 12) =~= crate::strings::NIL@);
                    crate::chars::lemma_keyword_at(s, i + 9, crate::strings::NIL@);
                },
            }
        },
        MessageDataItemV::Preview(p) => {
            let wp = crate::strings::spec_write_nstring(p);
            crate::chars::lemma_part(s, i, w, 0, 8);
            assert(w.subrange(0, 8) =~= PREVIEW_SP@);
            crate::chars::lemma_keyword_at(s, i, PREVIEW_SP@);
            crate::chars::lemma_part(s, i, w, 8, wp.len() as int);
            assert(w.subrange(8, 8 + wp.len() as int) =~= wp);
            crate::strings::lemma_nstring_round_trip(p, s, i + 8);
        },
    }
}

/// Whether the items of `msg-att` can be written and read back: at least
/// one, each one that can.
pub open spec fn writable_msg_att(items: Seq<MessageDataItemV>) -> bool {
    items.len() > 0 && forall|k: int| 0 <= k < items.len() ==> writable_msg_att_item(#[trigger] items[k])
}

/// The items of `msg-att`, written in parentheses at `i`, read back.
pub proof fn lemma_msg_att_round_trip(items: Seq<MessageDataItemV>, s: Seq<u8>, i: int)
    requires
        writable_msg_att(items),
        0 <= i,
        i + join(written(MsgAttItemWriter, items), seq![SP]).len() + 2 <= s.len(),
        s.subrange(i, i + join(written(MsgAttItemWriter, items), seq![SP]).len() + 2) == seq![LPAREN] + join(
            written(MsgAttItemWriter, items),
            seq![SP],
        ) + seq![RPAREN],
    ensures
        spec_msg_att(s, i) == Some((items, i + join(written(MsgAttItemWriter, items), seq![SP]).len() + 2)),
{
    let ws = written(MsgAttItemWriter, items);
    let after = |b: u8| b == SP || b == RPAREN;
    assert forall|k: int, q: int| 0 <= k < items.len() implies #[trigger] crate::rule::reads_at(MsgAttItemRule, s, q, items[k], ws[k], after) by {
        assert(ws[k] == spec_write_msg_att_item(items[k]));
        if 0 <= q && q + ws[k].len() < s.len() && s.subrange(q, q + ws[k].len()) == ws[k] && after(s[q + ws[k].len()]) {
            lemma_msg_att_item_round_trip(items[k], s, q);
        }
    }
    crate::rule::lemma_paren_list_round_trip(MsgAttItemRule, items, ws, s, i, false, after);
}

} // verus!

verus! {

// ---------------------------------------------------------------------
// The words each form is written with.

/// How each form of a fetch attribute is written, its words spelled out byte by byte.
pub proof fn lemma_fetch_att_written()
    ensures
        spec_write_fetch_att(MessageDataItemNameV::Body) == seq![66u8, 79, 68, 89],
        forall|v: MessageDataItemNameV| #![trigger spec_write_fetch_att(v)] v matches MessageDataItemNameV::BodyExt { section, partial, peek } ==> spec_write_fetch_att(v) == (if peek { seq![66u8, 79, 68, 89, 46, 80, 69, 69, 75] } else { seq![66u8, 79, 68, 89] }) + spec_write_section(section) + match partial { Some((a, b)) => seq![LANGLE] + decimal(a as nat) + seq![DOT] + decimal(b as nat) + seq![RANGLE], None => seq![], },
        spec_write_fetch_att(MessageDataItemNameV::BodyStructure) == seq![66u8, 79, 68, 89, 83, 84, 82, 85, 67, 84, 85, 82, 69],
        spec_write_fetch_att(MessageDataItemNameV::Envelope) == seq![69u8, 78, 86, 69, 76, 79, 80, 69],
        spec_write_fetch_att(MessageDataItemNameV::Flags) == seq![70u8, 76, 65, 71, 83],
        spec_write_fetch_att(MessageDataItemNameV::InternalDate) == seq![73u8, 78, 84, 69, 82, 78, 65, 76, 68, 65, 84, 69],
        spec_write_fetch_att(MessageDataItemNameV::Rfc822) == seq![82u8, 70, 67, 56, 50, 50],
        spec_write_fetch_att(MessageDataItemNameV::Rfc822Header) == seq![82u8, 70, 67, 56, 50, 50, 46, 72, 69, 65, 68, 69, 82],
        spec_write_fetch_att(MessageDataItemNameV::Rfc822Size) == seq![82u8, 70, 67, 56, 50, 50, 46, 83, 73, 90, 69],
        spec_write_fetch_att(MessageDataItemNameV::Rfc822Text) == seq![82u8, 70, 67, 56, 50, 50, 46, 84, 69, 88, 84],
        spec_write_fetch_att(MessageDataItemNameV::Uid) == seq![85u8, 73, 68],
        spec_write_fetch_att(MessageDataItemNameV::EmailId) == seq![69u8, 77, 65, 73, 76, 73, 68],
        spec_write_fetch_att(MessageDataItemNameV::ThreadId) == seq![84u8, 72, 82, 69, 65, 68, 73, 68],
        forall|v: MessageDataItemNameV| #![trigger spec_write_fetch_att(v)] v matches MessageDataItemNameV::Preview { lazy } ==> spec_write_fetch_att(v) == seq![80u8, 82, 69, 86, 73, 69, 87] + if lazy { seq![32u8, 40, 76, 65, 90, 89, 41] } else { seq![] },
{
    assert(BODY@ =~= seq![66u8, 79, 68, 89]);
    assert(BODYSTRUCTURE@ =~= seq![66u8, 79, 68, 89, 83, 84, 82, 85, 67, 84, 85, 82, 69]);
    assert(BODY_PEEK@ =~= seq![66u8, 79, 68, 89, 46, 80, 69, 69, 75]);
    assert(EMAILID@ =~= seq![69u8, 77, 65, 73, 76, 73, 68]);
    assert(ENVELOPE@ =~= seq![69u8, 78, 86, 69, 76, 79, 80, 69]);
    assert(FLAGS@ =~= seq![70u8, 76, 65, 71, 83]);
    assert(INTERNALDATE@ =~= seq![73u8, 78, 84, 69, 82, 78, 65, 76, 68, 65, 84, 69]);
    assert(PREVIEW@ =~= seq![80u8, 82, 69, 86, 73, 69, 87]);
    assert(RFC822@ =~= seq![82u8, 70, 67, 56, 50, 50]);
    assert(RFC822_HEADER@ =~= seq![82u8, 70, 67, 56, 50, 50, 46, 72, 69, 65, 68, 69, 82]);
    assert(RFC822_SIZE@ =~= seq![82u8, 70, 67, 56, 50, 50, 46, 83, 73, 90, 69]);
    assert(RFC822_TEXT@ =~= seq![82u8, 70, 67, 56, 50, 50, 46, 84, 69, 88, 84]);
    assert(SP_LAZY@ =~= seq![32u8, 40, 76, 65, 90, 89, 41]);
    assert(THREADID@ =~= seq![84u8, 72, 82, 69, 65, 68, 73, 68]);
    assert(UID@ =~= seq![85u8, 73, 68]);
}

/// How each form of a message attribute is written, its words spelled out byte by byte.
pub proof fn lemma_msg_att_item_written()
    ensures
        forall|v: MessageDataItemV| #![trigger spec_write_msg_att_item(v)] v matches MessageDataItemV::Flags(f) ==> spec_write_msg_att_item(v) == seq![70u8, 76, 65, 71, 83, 32] + spec_write_flag_list(f),
        forall|v: MessageDataItemV| #![trigger spec_write_msg_att_item(v)] v matches MessageDataItemV::Rfc822Size(n) ==> spec_write_msg_att_item(v) == seq![82u8, 70, 67, 56, 50, 50, 46, 83, 73, 90, 69, 32] + decimal(n as nat),
        forall|v: MessageDataItemV| #![trigger spec_write_msg_att_item(v)] v matches MessageDataItemV::Uid(n) ==> spec_write_msg_att_item(v) == seq![85u8, 73, 68, 32] + decimal(n as nat),
        forall|v: MessageDataItemV| #![trigger spec_write_msg_att_item(v)] v matches MessageDataItemV::EmailId(o) ==> spec_write_msg_att_item(v) == seq![69u8, 77, 65, 73, 76, 73, 68, 32] + seq![LPAREN] + o + seq![RPAREN],
        forall|v: MessageDataItemV| #![trigger spec_write_msg_att_item(v)] v matches MessageDataItemV::ThreadId(Some(o)) ==> spec_write_msg_att_item(v) == seq![84u8, 72, 82, 69, 65, 68, 73, 68, 32] + seq![LPAREN] + o + seq![RPAREN],
        forall|v: MessageDataItemV| #![trigger spec_write_msg_att_item(v)] v matches MessageDataItemV::ThreadId(None) ==> spec_write_msg_att_item(v) == seq![84u8, 72, 82, 69, 65, 68, 73, 68, 32] + seq![78u8, 73, 76],
        forall|v: MessageDataItemV| #![trigger spec_write_msg_att_item(v)] v matches MessageDataItemV::Preview(p) ==> spec_write_msg_att_item(v) == seq![80u8, 82, 69, 86, 73, 69, 87, 32] + crate::strings::spec_write_nstring(p),
{
    assert(FLAGS_SP@ =~= seq![70u8, 76, 65, 71, 83, 32]);
    assert(PREVIEW_SP@ =~= seq![80u8, 82, 69, 86, 73, 69, 87, 32]);
    assert(RFC822_SIZE_SP@ =~= seq![82u8, 70, 67, 56, 50, 50, 46, 83, 73, 90, 69, 32]);
    assert(THREADID_SP@ =~= seq![84u8, 72, 82, 69, 65, 68, 73, 68, 32]);
    assert(crate::search::EMAILID_SP@ =~= seq![69u8, 77, 65, 73, 76, 73, 68, 32]);
    assert(crate::search::UID_SP@ =~= seq![85u8, 73, 68, 32]);
    assert(crate::strings::NIL@ =~= seq![78u8, 73, 76]);
}

/// How each form of a flag is written, its words spelled out byte by byte.
pub proof fn lemma_flag_written()
    ensures

{

}

/// How each form of a section is written, its words spelled out byte by byte.
pub proof fn lemma_section_spec_written()
    ensures
        forall|v: SectionV| #![trigger spec_write_section_spec(v)] v matches SectionV::Header(p) ==> spec_write_section_spec(v) == spec_write_part_prefix(p) + seq![72u8, 69, 65, 68, 69, 82],
        forall|v: SectionV| #![trigger spec_write_section_spec(v)] v matches SectionV::HeaderFields(p, l) ==> spec_write_section_spec(v) == spec_write_part_prefix(p) + seq![72u8, 69, 65, 68, 69, 82, 46, 70, 73, 69, 76, 68, 83, 32] + seq![LPAREN] + join(written(AStringWriter, l), seq![SP]) + seq![RPAREN],
        forall|v: SectionV| #![trigger spec_write_section_spec(v)] v matches SectionV::HeaderFieldsNot(p, l) ==> spec_write_section_spec(v) == spec_write_part_prefix(p) + seq![72u8, 69, 65, 68, 69, 82, 46, 70, 73, 69, 76, 68, 83, 46, 78, 79, 84, 32] + seq![LPAREN] + join(written(AStringWriter, l), seq![SP]) + seq![RPAREN],
        forall|v: SectionV| #![trigger spec_write_section_spec(v)] v matches SectionV::Text(p) ==> spec_write_section_spec(v) == spec_write_part_prefix(p) + seq![84u8, 69, 88, 84],
        forall|v: SectionV| #![trigger spec_write_section_spec(v)] v matches SectionV::Mime(p) ==> spec_write_section_spec(v) == spec_write_part(p) + seq![DOT] + seq![77u8, 73, 77, 69],
{
    assert(HEADER@ =~= seq![72u8, 69, 65, 68, 69, 82]);
    assert(HEADER_FIELDS_NOT_SP@ =~= seq![72u8, 69, 65, 68, 69, 82, 46, 70, 73, 69, 76, 68, 83, 46, 78, 79, 84, 32]);
    assert(HEADER_FIELDS_SP@ =~= seq![72u8, 69, 65, 68, 69, 82, 46, 70, 73, 69, 76, 68, 83, 32]);
    assert(MIME@ =~= seq![77u8, 73, 77, 69]);
    assert(TEXT@ =~= seq![84u8, 69, 88, 84]);
}

} // verus!
