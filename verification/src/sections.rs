//! The sectioned key=value text form shared by the registry export and the
//! Linux pairing record: `[name]` headers, `name=value` lines with
//! whitespace trimmed around both sides, `;` or `#` comment lines, and blank
//! lines. A field line before any header, an unterminated header, a `]`
//! inside a header name, or a non-empty line without `=` is a structural
//! failure.

use vstd::prelude::*;
use crate::errors::BtError;
use crate::text::{
    chars_to_string, ini_space, spec_trim, split_into_lines, split_lines, str_eq, str_to_chars,
    subvec, trim_chars,
};
use crate::uni_bt_device::opt_view;

verus! {

/// View of one field: its name and its raw value, both trimmed.
#[verifier::ext_equal]
pub ghost struct FieldV {
    pub name: Seq<char>,
    pub value: Seq<char>,
}

/// View of one section: its header name and its fields in textual order.
#[verifier::ext_equal]
pub ghost struct SectionV {
    pub name: Seq<char>,
    pub fields: Seq<FieldV>,
}

/// One field of a section.
pub struct RegField {
    pub name: String,
    pub value: String,
}

impl View for RegField {
    type V = FieldV;

    open spec fn view(&self) -> FieldV {
        FieldV { name: self.name@, value: self.value@ }
    }
}

/// One section: its header name and its fields in textual order.
pub struct RegSection {
    pub name: String,
    pub fields: Vec<RegField>,
}

impl View for RegSection {
    type V = SectionV;

    open spec fn view(&self) -> SectionV {
        SectionV { name: self.name@, fields: self.fields@.map_values(|f: RegField| f@) }
    }
}

/// The views of a run of sections.
pub open spec fn sections_view(s: Seq<RegSection>) -> Seq<SectionV> {
    s.map_values(|x: RegSection| x@)
}

/// The index of the first '=' in `l`, or its length if it has none.
pub open spec fn first_eq(l: Seq<char>) -> int
    decreases l.len(),
{
    if l.len() == 0 {
        0
    } else if l[0] == '=' {
        0
    } else {
        1 + first_eq(l.drop_first())
    }
}

/// A well-formed header line: `[` name `]`, the name free of `]`.
pub open spec fn header_ok(l: Seq<char>) -> bool {
    &&& l.len() >= 2
    &&& l[0] == '['
    &&& l.last() == ']'
    &&& forall|j: int| 1 <= j < l.len() - 1 ==> l[j] != ']'
}

/// What one line contributes.
pub ghost enum LineItem {
    /// An empty line: skipped.
    Blank,
    /// A line opening with ';' or '#': skipped.
    Comment,
    /// A `[name]` header: opens a section.
    Header(Seq<char>),
    /// A `name=value` line: one field of the open section.
    Field(FieldV),
    /// Anything else: a structural failure.
    Bad,
}

/// Classifies one line of a sectioned record.
pub open spec fn classify_line(l: Seq<char>) -> LineItem {
    if l.len() == 0 {
        LineItem::Blank
    } else if l[0] == '[' {
        if header_ok(l) {
            LineItem::Header(l.subrange(1, l.len() - 1))
        } else {
            LineItem::Bad
        }
    } else if l[0] == ';' || l[0] == '#' {
        LineItem::Comment
    } else {
        let i = first_eq(l);
        if i == l.len() {
            LineItem::Bad
        } else {
            LineItem::Field(
                FieldV { name: spec_trim(l.take(i)), value: spec_trim(l.skip(i + 1)) },
            )
        }
    }
}

/// The parser's state: the finished sections, and the section still open.
#[verifier::ext_equal]
pub ghost struct ParseState {
    pub done: Seq<SectionV>,
    pub cur: Option<SectionV>,
}

/// Closes the open section, if any.
pub open spec fn flush(st: ParseState) -> Seq<SectionV> {
    match st.cur {
        Some(c) => st.done.push(c),
        None => st.done,
    }
}

/// One line applied to the parser's state; `None` is a structural failure.
pub open spec fn parse_line(st: Option<ParseState>, l: Seq<char>) -> Option<ParseState> {
    match st {
        None => None,
        Some(st) => match classify_line(l) {
            LineItem::Blank => Some(st),
            LineItem::Comment => Some(st),
            LineItem::Header(name) => Some(
                ParseState {
                    done: flush(st),
                    cur: Some(SectionV { name, fields: Seq::empty() }),
                },
            ),
            LineItem::Field(f) => match st.cur {
                Some(c) => Some(
                    ParseState {
                        done: st.done,
                        cur: Some(SectionV { name: c.name, fields: c.fields.push(f) }),
                    },
                ),
                None => None,
            },
            LineItem::Bad => None,
        },
    }
}

/// The state after the first `n` lines.
pub open spec fn parse_upto(ls: Seq<Seq<char>>, n: int) -> Option<ParseState>
    decreases n,
{
    if n <= 0 {
        Some(ParseState { done: Seq::empty(), cur: None })
    } else {
        parse_line(parse_upto(ls, n - 1), ls[n - 1])
    }
}

/// The state after a further run of lines, starting from `st`.
pub open spec fn parse_cont(st: Option<ParseState>, ls: Seq<Seq<char>>) -> Option<ParseState>
    decreases ls.len(),
{
    if ls.len() == 0 {
        st
    } else {
        parse_cont(parse_line(st, ls[0]), ls.drop_first())
    }
}

/// Folding two runs of lines one after the other is folding their
/// concatenation.
pub proof fn lemma_parse_cont_append(st: Option<ParseState>, a: Seq<Seq<char>>, b: Seq<Seq<char>>)
    ensures
        parse_cont(st, a + b) == parse_cont(parse_cont(st, a), b),
    decreases a.len(),
{
    if a.len() == 0 {
        assert(a + b =~= b);
    } else {
        assert((a + b)[0] == a[0]);
        assert((a + b).drop_first() =~= a.drop_first() + b);
        lemma_parse_cont_append(parse_line(st, a[0]), a.drop_first(), b);
    }
}

/// The prefix fold and the continuation fold agree.
pub proof fn lemma_parse_upto_cont(ls: Seq<Seq<char>>, n: int)
    requires
        0 <= n <= ls.len(),
    ensures
        parse_upto(ls, n) == parse_cont(parse_upto(ls, 0), ls.take(n)),
    decreases n,
{
    if n == 0 {
        assert(ls.take(0) =~= Seq::<Seq<char>>::empty());
    } else {
        lemma_parse_upto_cont(ls, n - 1);
        assert(ls.take(n) =~= ls.take(n - 1) + seq![ls[n - 1]]);
        lemma_parse_cont_append(parse_upto(ls, 0), ls.take(n - 1), seq![ls[n - 1]]);
        let st1 = parse_cont(parse_upto(ls, 0), ls.take(n - 1));
        let one = seq![ls[n - 1]];
        assert(one[0] == ls[n - 1]);
        assert(parse_cont(st1, one) == parse_cont(parse_line(st1, ls[n - 1]), one.drop_first()));
        assert(one.drop_first().len() == 0);
        assert(parse_cont(parse_line(st1, ls[n - 1]), one.drop_first()) == parse_line(
            st1,
            ls[n - 1],
        ));
    }
}

/// The sections of a run of lines, or `None` on a structural failure.
pub open spec fn parse_lines(ls: Seq<Seq<char>>) -> Option<Seq<SectionV>> {
    match parse_upto(ls, ls.len() as int) {
        Some(st) => Some(flush(st)),
        None => None,
    }
}

/// The sections of a sectioned text, or `None` on a structural failure.
pub open spec fn spec_parse_sections(text: Seq<char>) -> Option<Seq<SectionV>> {
    parse_lines(split_lines(text))
}

/// A failure never recovers on later lines.
proof fn lemma_parse_none(ls: Seq<Seq<char>>, i: int, j: int)
    requires
        0 <= i <= j,
        parse_upto(ls, i) is None,
    ensures
        parse_upto(ls, j) is None,
    decreases j - i,
{
    if j > i {
        lemma_parse_none(ls, i, j - 1);
    }
}

pub proof fn lemma_first_eq_at(l: Seq<char>, i: int)
    requires
        0 <= i <= l.len(),
        forall|k: int| 0 <= k < i ==> l[k] != '=',
        i == l.len() || l[i] == '=',
    ensures
        first_eq(l) == i,
    decreases i,
{
    if l.len() == 0 {
    } else if i == 0 {
    } else {
        lemma_first_eq_at(l.drop_first(), i - 1);
    }
}

/// The index of the first '=' in `l`, or its length if it has none.
fn find_eq(l: &Vec<char>) -> (r: usize)
    ensures
        r == first_eq(l@),
        r <= l@.len(),
{
    let n = l.len();
    let mut i: usize = 0;
    while i < n
        invariant
            0 <= i <= n,
            n == l@.len(),
            forall|k: int| 0 <= k < i ==> l@[k] != '=',
        decreases n - i,
    {
        if l[i] == '=' {
            proof {
                lemma_first_eq_at(l@, i as int);
            }
            return i;
        }
        i = i + 1;
    }
    proof {
        lemma_first_eq_at(l@, n as int);
    }
    n
}

/// The name of a header line, or `None` if the line is no valid header.
fn header_name(l: &Vec<char>) -> (r: Option<Vec<char>>)
    requires
        l@.len() >= 1,
        l@[0] == '[',
    ensures
        match r {
            Some(name) => header_ok(l@) && name@ == l@.subrange(1, l@.len() - 1),
            None => !header_ok(l@),
        },
{
    let n = l.len();
    if n < 2 || l[n - 1] != ']' {
        return None;
    }
    let mut j: usize = 1;
    while j < n - 1
        invariant
            1 <= j <= n - 1,
            n == l@.len(),
            n >= 2,
            forall|k: int| 1 <= k < j ==> l@[k] != ']',
        decreases n - 1 - j,
    {
        if l[j] == ']' {
            return None;
        }
        j = j + 1;
    }
    Some(subvec(l, 1, n - 1))
}

/// Parses a sectioned key=value text into its sections, exactly as
/// `spec_parse_sections` describes; any structural failure rejects the
/// whole text.
pub fn parse_sections(text: &str) -> (r: Result<Vec<RegSection>, BtError>)
    ensures
        r is Ok <==> spec_parse_sections(text@) is Some,
        r is Ok ==> sections_view(r->Ok_0@) == spec_parse_sections(text@)->0,
        r is Err ==> r->Err_0 == BtError::StructuralParse,
{
    let chars = str_to_chars(text);
    let lines = split_into_lines(&chars);
    let ghost ls = split_lines(text@);
    let n = lines.len();
    let mut done: Vec<RegSection> = Vec::new();
    let mut cur: Option<RegSection> = None;
    let mut i: usize = 0;
    while i < n
        invariant
            0 <= i <= n,
            lines.deep_view() == ls,
            ls == split_lines(text@),
            n == ls.len(),
            parse_upto(ls, i as int) == Some(
                ParseState { done: sections_view(done@), cur: opt_view(cur) },
            ),
        decreases n - i,
    {
        let l = &lines[i];
        proof {
            assert(l@ =~= ls[i as int]);
        }
        let ghost st = ParseState { done: sections_view(done@), cur: opt_view(cur) };
        let llen = l.len();
        if llen == 0 {
            proof {
                assert(parse_upto(ls, i + 1) == Some(st));
            }
        } else if l[0] == '[' {
            match header_name(l) {
                Some(name_chars) => {
                    let ghost flushed = flush(st);
                    match cur {
                        Some(c) => {
                            let ghost before = done@;
                            done.push(c);
                            proof {
                                assert(sections_view(done@) =~= sections_view(before).push(c@));
                            }
                        },
                        None => {},
                    }
                    let name = chars_to_string(&name_chars);
                    cur = Some(RegSection { name, fields: Vec::new() });
                    proof {
                        assert(opt_view(cur)->0 =~~= SectionV {
                            name: ls[i as int].subrange(1, ls[i as int].len() - 1),
                            fields: Seq::empty(),
                        });
                        assert(parse_upto(ls, i + 1) == Some(
                            ParseState { done: sections_view(done@), cur: opt_view(cur) },
                        ));
                    }
                },
                None => {
                    proof {
                        assert(classify_line(ls[i as int]) is Bad);
                        assert(parse_upto(ls, i + 1) is None);
                        lemma_parse_none(ls, i + 1, n as int);
                    }
                    return Err(BtError::StructuralParse);
                },
            }
        } else if l[0] == ';' || l[0] == '#' {
            proof {
                assert(classify_line(ls[i as int]) is Comment);
                assert(parse_upto(ls, i + 1) == Some(st));
            }
        } else {
            let eq = find_eq(l);
            if eq == llen {
                proof {
                    assert(classify_line(ls[i as int]) is Bad);
                    assert(parse_upto(ls, i + 1) is None);
                    lemma_parse_none(ls, i + 1, n as int);
                }
                return Err(BtError::StructuralParse);
            }
            let name_chars = trim_chars(&subvec(l, 0, eq));
            let value_chars = trim_chars(&subvec(l, eq + 1, llen));
            let field = RegField {
                name: chars_to_string(&name_chars),
                value: chars_to_string(&value_chars),
            };
            let ghost fv = FieldV {
                name: spec_trim(ls[i as int].take(first_eq(ls[i as int]))),
                value: spec_trim(ls[i as int].skip(first_eq(ls[i as int]) + 1)),
            };
            proof {
                assert(classify_line(ls[i as int]) == LineItem::Field(fv));
                assert(field@ =~~= fv);
            }
            match cur {
                Some(c) => {
                    let mut c = c;
                    let ghost cv = c@;
                    c.fields.push(field);
                    proof {
                        assert(c@.fields =~= cv.fields.push(fv));
                    }
                    cur = Some(c);
                    proof {
                        assert(parse_upto(ls, i + 1) == Some(
                            ParseState { done: sections_view(done@), cur: opt_view(cur) },
                        ));
                    }
                },
                None => {
                    proof {
                        assert(parse_upto(ls, i + 1) is None);
                        lemma_parse_none(ls, i + 1, n as int);
                    }
                    return Err(BtError::StructuralParse);
                },
            }
        }
        i = i + 1;
    }
    match cur {
        Some(c) => {
            let ghost before = done@;
            done.push(c);
            proof {
                assert(sections_view(done@) =~= sections_view(before).push(c@));
            }
        },
        None => {},
    }
    Ok(done)
}

/// The value of the first field named `name`, or `None`.
pub open spec fn find_field(fields: Seq<FieldV>, name: Seq<char>) -> Option<Seq<char>>
    decreases fields.len(),
{
    if fields.len() == 0 {
        None
    } else if fields[0].name == name {
        Some(fields[0].value)
    } else {
        find_field(fields.drop_first(), name)
    }
}

/// The first section named `name`, or `None`.
pub open spec fn find_section(secs: Seq<SectionV>, name: Seq<char>) -> Option<SectionV>
    decreases secs.len(),
{
    if secs.len() == 0 {
        None
    } else if secs[0].name == name {
        Some(secs[0])
    } else {
        find_section(secs.drop_first(), name)
    }
}

proof fn lemma_find_field_from(fields: Seq<FieldV>, name: Seq<char>, i: int)
    requires
        0 <= i <= fields.len(),
        forall|k: int| 0 <= k < i ==> fields[k].name != name,
    ensures
        find_field(fields, name) == find_field(fields.skip(i), name),
    decreases i,
{
    if i == 0 {
        assert(fields.skip(0) =~= fields);
    } else {
        lemma_find_field_from(fields.drop_first(), name, i - 1);
        assert(fields.drop_first().skip(i - 1) =~= fields.skip(i));
    }
}

pub proof fn lemma_find_section_from(secs: Seq<SectionV>, name: Seq<char>, i: int)
    requires
        0 <= i <= secs.len(),
        forall|k: int| 0 <= k < i ==> secs[k].name != name,
    ensures
        find_section(secs, name) == find_section(secs.skip(i), name),
    decreases i,
{
    if i == 0 {
        assert(secs.skip(0) =~= secs);
    } else {
        lemma_find_section_from(secs.drop_first(), name, i - 1);
        assert(secs.drop_first().skip(i - 1) =~= secs.skip(i));
    }
}

/// A copy of the first value of the field named `name` in `sec`.
pub fn field_value(sec: &RegSection, name: &str) -> (r: Option<String>)
    ensures
        match r {
            Some(v) => find_field(sec@.fields, name@) == Some(v@),
            None => find_field(sec@.fields, name@) is None,
        },
{
    let n = sec.fields.len();
    let mut i: usize = 0;
    while i < n
        invariant
            0 <= i <= n,
            n == sec@.fields.len(),
            forall|k: int| 0 <= k < i ==> sec@.fields[k].name != name@,
        decreases n - i,
    {
        if str_eq(sec.fields[i].name.as_str(), name) {
            proof {
                lemma_find_field_from(sec@.fields, name@, i as int);
                assert(sec@.fields.skip(i as int)[0] == sec@.fields[i as int]);
            }
            return Some(sec.fields[i].value.clone());
        }
        i = i + 1;
    }
    proof {
        lemma_find_field_from(sec@.fields, name@, n as int);
    }
    None
}

/// The index of the first section named `name` in `secs`.
pub fn section_index(secs: &Vec<RegSection>, name: &str) -> (r: Option<usize>)
    ensures
        match r {
            Some(i) => i < secs@.len() && find_section(sections_view(secs@), name@) == Some(
                secs@[i as int]@,
            ),
            None => find_section(sections_view(secs@), name@) is None,
        },
{
    let n = secs.len();
    let mut i: usize = 0;
    while i < n
        invariant
            0 <= i <= n,
            n == secs@.len(),
            forall|k: int| 0 <= k < i ==> sections_view(secs@)[k].name != name@,
        decreases n - i,
    {
        if str_eq(secs[i].name.as_str(), name) {
            proof {
                lemma_find_section_from(sections_view(secs@), name@, i as int);
                assert(sections_view(secs@).skip(i as int)[0] == sections_view(secs@)[i as int]);
            }
            return Some(i);
        }
        i = i + 1;
    }
    proof {
        lemma_find_section_from(sections_view(secs@), name@, n as int);
    }
    None
}

/// The line ending every emitted line carries.
pub open spec fn crlf() -> Seq<char> {
    seq!['\r', '\n']
}

/// The text of a `[name]` header line.
pub open spec fn header_text(name: Seq<char>) -> Seq<char> {
    seq!['['] + name + seq![']'] + crlf()
}

/// The text of a `name=value` field line.
pub open spec fn field_text(name: Seq<char>, value: Seq<char>) -> Seq<char> {
    name + seq!['='] + value + crlf()
}

/// Appends the characters of `s` to `buf`.
pub fn push_str_chars(buf: &mut Vec<char>, s: &str)
    ensures
        final(buf)@ == old(buf)@ + s@,
{
    let n = s.unicode_len();
    let mut i: usize = 0;
    while i < n
        invariant
            0 <= i <= n,
            n == s@.len(),
            buf@ == old(buf)@ + s@.take(i as int),
        decreases n - i,
    {
        buf.push(s.get_char(i));
        proof {
            assert(old(buf)@ + s@.take(i + 1) =~= (old(buf)@ + s@.take(i as int)).push(
                s@[i as int],
            ));
        }
        i = i + 1;
    }
    proof {
        assert(old(buf)@ + s@.take(n as int) =~= old(buf)@ + s@);
    }
}

/// Appends a `[name]` header line to `buf`.
pub fn emit_header(buf: &mut Vec<char>, name: &str)
    ensures
        final(buf)@ == old(buf)@ + header_text(name@),
{
    buf.push('[');
    push_str_chars(buf, name);
    buf.push(']');
    buf.push('\r');
    buf.push('\n');
    proof {
        assert(buf@ =~= old(buf)@ + header_text(name@));
    }
}

/// Appends a `name=value` field line to `buf`.
pub fn emit_field(buf: &mut Vec<char>, name: &str, value: &str)
    ensures
        final(buf)@ == old(buf)@ + field_text(name@, value@),
{
    push_str_chars(buf, name);
    buf.push('=');
    push_str_chars(buf, value);
    buf.push('\r');
    buf.push('\n');
    proof {
        assert(buf@ =~= old(buf)@ + field_text(name@, value@));
    }
}

} // verus!
