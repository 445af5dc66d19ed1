//! The laws tying the record serializer to the parser: on a clean record —
//! one whose string values hold no line break and carry no surrounding
//! whitespace — parsing the serialized text gives the record back, records
//! read from disk are clean, and merging a record's own merged text again
//! changes nothing, so rewriting a record is idempotent byte for byte.

use vstd::prelude::*;
use crate::info_file::{
    connection_parameters_of, connection_parameters_text, device_id_of, device_id_text, general_of,
    general_text, info_text, link_key_of, link_key_text, ltk_section_of, ltk_section_text,
    opt_field_text, record_of, single_key_of, single_key_text, spec_parse_info,
};
use crate::codec::{key_hex, upper_hex_digit};
use crate::linux_bt_device::{
    lemma_merge_idempotent, merged_device, BtDeviceV, ConnectionParametersV, DeviceIdV, GeneralV,
    LinkKeyV, LtkSectionV, SingleKeyV,
};
use crate::text::{is_ini_space, lines_fold, spec_trim, split_lines, strip_cr, trim_end, trim_start};
use crate::sections::{
    classify_line, crlf, field_text, find_field, find_section, first_eq, flush, header_ok,
    header_text, lemma_find_section_from, lemma_first_eq_at, lemma_parse_upto_cont, parse_cont,
    parse_line, parse_upto, spec_parse_sections, FieldV, LineItem, ParseState, SectionV,
};

verus! {

/// No line break anywhere in `s`.
pub open spec fn no_newline(s: Seq<char>) -> bool {
    forall|i: int| 0 <= i < s.len() ==> s[i] != '\n'
}

/// A value that survives the trip through the text unchanged: no line break,
/// and no whitespace for the parser to trim away.
pub open spec fn value_clean(s: Seq<char>) -> bool {
    no_newline(s) && spec_trim(s) == s
}

/// A field name as the serializer may emit it: clean, without '=', and not
/// opening like a header or a comment.
pub open spec fn name_ok(s: Seq<char>) -> bool {
    &&& value_clean(s)
    &&& forall|i: int| 0 <= i < s.len() ==> s[i] != '='
    &&& (s.len() > 0 ==> s[0] != '[' && s[0] != ';' && s[0] != '#')
}

/// A section name as the serializer may emit it: no line break, no ']'.
pub open spec fn header_name_ok(s: Seq<char>) -> bool {
    no_newline(s) && (forall|i: int| 0 <= i < s.len() ==> s[i] != ']')
}

proof fn lemma_trim_start_len(s: Seq<char>)
    ensures
        trim_start(s).len() <= s.len(),
        s.len() > 0 && is_ini_space(s[0]) ==> trim_start(s).len() < s.len(),
    decreases s.len(),
{
    if s.len() > 0 && is_ini_space(s[0]) {
        lemma_trim_start_len(s.drop_first());
    }
}

proof fn lemma_trim_end_len(s: Seq<char>)
    ensures
        trim_end(s).len() <= s.len(),
        s.len() > 0 && is_ini_space(s.last()) ==> trim_end(s).len() < s.len(),
    decreases s.len(),
{
    if s.len() > 0 && is_ini_space(s.last()) {
        lemma_trim_end_len(s.drop_last());
    }
}

/// A trimmed, non-empty value neither starts nor ends with whitespace.
proof fn lemma_clean_ends(s: Seq<char>)
    requires
        spec_trim(s) == s,
        s.len() > 0,
    ensures
        !is_ini_space(s[0]),
        !is_ini_space(s.last()),
{
    lemma_trim_start_len(s);
    lemma_trim_end_len(trim_start(s));
    if is_ini_space(s[0]) {
        assert(spec_trim(s).len() < s.len());
    }
    assert(trim_start(s) == s);
    if is_ini_space(s.last()) {
        assert(trim_end(s).len() < s.len());
    }
}

/// A value whose ends are no whitespace is its own trim.
proof fn lemma_ends_clean_trim(s: Seq<char>)
    requires
        s.len() == 0 || (!is_ini_space(s[0]) && !is_ini_space(s.last())),
    ensures
        spec_trim(s) == s,
{
    assert(trim_start(s) == s);
    assert(trim_end(s) == s);
}

proof fn lemma_fold_no_newline(s: Seq<char>)
    requires
        no_newline(s),
    ensures
        lines_fold(s).0 == Seq::<Seq<char>>::empty(),
        lines_fold(s).1 == s,
    decreases s.len(),
{
    if s.len() == 0 {
        assert(lines_fold(s).1 =~= s);
    } else {
        assert(no_newline(s.drop_last()));
        lemma_fold_no_newline(s.drop_last());
        assert(s.last() != '\n');
        assert(lines_fold(s).1 =~= s.drop_last().push(s.last()));
        assert(s.drop_last().push(s.last()) =~= s);
    }
}

proof fn lemma_fold_line(l: Seq<char>, rest: Seq<char>)
    requires
        no_newline(l),
        l.len() == 0 || l.last() != '\r',
    ensures
        lines_fold(l + crlf() + rest).0 == seq![l] + lines_fold(rest).0,
        lines_fold(l + crlf() + rest).1 == lines_fold(rest).1,
    decreases rest.len(),
{
    let s = l + crlf() + rest;
    if rest.len() == 0 {
        let lr = l + seq!['\r'];
        assert(s.len() == l.len() + 2);
        assert(s.last() == '\n');
        assert(s.drop_last() =~= lr);
        assert(no_newline(lr)) by {
            assert(forall|i: int| 0 <= i < l.len() ==> lr[i] == l[i]);
        }
        lemma_fold_no_newline(lr);
        assert(strip_cr(lr) =~= l);
        assert(lines_fold(s).0 =~= seq![l] + lines_fold(rest).0);
        assert(lines_fold(s).1 =~= lines_fold(rest).1);
    } else {
        let r1 = rest.drop_last();
        let c = rest.last();
        assert(s.len() > 0);
        assert(s.drop_last() =~= l + crlf() + r1);
        assert(s.last() == c);
        lemma_fold_line(l, r1);
        let p = lines_fold(l + crlf() + r1);
        let q = lines_fold(r1);
        assert(rest.drop_last().push(c) =~= rest);
        if c == '\n' {
            assert(lines_fold(s).0 =~= seq![l] + lines_fold(rest).0);
            assert(lines_fold(s).1 =~= lines_fold(rest).1);
        } else {
            assert(lines_fold(s).0 =~= seq![l] + lines_fold(rest).0);
            assert(lines_fold(s).1 =~= lines_fold(rest).1);
        }
    }
}

/// One emitted line splits off the front of the line list.
proof fn lemma_split_lines_line(l: Seq<char>, rest: Seq<char>)
    requires
        no_newline(l),
        l.len() == 0 || l.last() != '\r',
    ensures
        split_lines(l + crlf() + rest) == seq![l] + split_lines(rest),
{
    lemma_fold_line(l, rest);
    let p = lines_fold(l + crlf() + rest);
    let q = lines_fold(rest);
    if q.1.len() == 0 {
        assert(split_lines(l + crlf() + rest) =~= seq![l] + split_lines(rest));
    } else {
        assert(p.0.push(p.1) =~= seq![l] + q.0.push(q.1));
        assert(split_lines(l + crlf() + rest) =~= seq![l] + split_lines(rest));
    }
}

/// The line a field serializes to, without its ending.
pub open spec fn field_line(f: FieldV) -> Seq<char> {
    f.name + seq!['='] + f.value
}

/// The line a header serializes to, without its ending.
pub open spec fn header_line(name: Seq<char>) -> Seq<char> {
    seq!['['] + name + seq![']']
}

proof fn lemma_classify_field_line(f: FieldV)
    requires
        name_ok(f.name),
        value_clean(f.value),
    ensures
        classify_line(field_line(f)) == LineItem::Field(f),
        no_newline(field_line(f)),
        field_line(f).len() == 0 || field_line(f).last() != '\r',
{
    let l = field_line(f);
    let n = f.name.len() as int;
    assert(l.len() == n + 1 + f.value.len());
    assert(l[n] == '=');
    assert(forall|k: int| 0 <= k < n ==> l[k] == f.name[k]);
    assert(forall|k: int| 0 <= k < f.value.len() ==> l[n + 1 + k] == f.value[k]);
    assert forall|i: int| 0 <= i < l.len() implies l[i] != '\n' by {
        if i < n {
            assert(l[i] == f.name[i]);
        } else if i > n {
            assert(l[i] == f.value[i - n - 1]);
        }
    }
    if n > 0 {
        lemma_clean_ends(f.name);
        assert(l[0] == f.name[0]);
    }
    lemma_first_eq_at(l, n);
    assert(l.take(n) =~= f.name);
    assert(l.skip(n + 1) =~= f.value);
    if f.value.len() > 0 {
        lemma_clean_ends(f.value);
        assert(l.last() == f.value.last());
    } else {
        assert(l.last() == '=');
    }
}

proof fn lemma_classify_header_line(name: Seq<char>)
    requires
        header_name_ok(name),
    ensures
        classify_line(header_line(name)) == LineItem::Header(name),
        no_newline(header_line(name)),
        header_line(name).len() == 0 || header_line(name).last() != '\r',
{
    let l = header_line(name);
    assert(l.len() == name.len() + 2);
    assert(l[0] == '[');
    assert(l.last() == ']');
    assert(forall|k: int| 0 <= k < name.len() ==> l[1 + k] == name[k]);
    assert forall|j: int| 1 <= j < l.len() - 1 implies l[j] != ']' by {
        assert(l[j] == name[j - 1]);
    }
    assert(header_ok(l));
    assert(l.subrange(1, l.len() - 1) =~= name);
    assert forall|i: int| 0 <= i < l.len() implies l[i] != '\n' by {
        if 1 <= i < l.len() - 1 {
            assert(l[i] == name[i - 1]);
        }
    }
}

/// The lines of a run of fields.
pub open spec fn field_lines(fs: Seq<FieldV>) -> Seq<Seq<char>> {
    fs.map_values(|f: FieldV| field_line(f))
}

/// The text of a run of fields, one line each.
pub open spec fn fields_text(fs: Seq<FieldV>) -> Seq<char>
    decreases fs.len(),
{
    if fs.len() == 0 {
        Seq::empty()
    } else {
        field_text(fs[0].name, fs[0].value) + fields_text(fs.drop_first())
    }
}

/// Every field of the run is clean.
pub open spec fn fields_clean(fs: Seq<FieldV>) -> bool {
    forall|i: int|
        0 <= i < fs.len() ==> name_ok(#[trigger] fs[i].name) && value_clean(fs[i].value)
}

/// The text of two runs of fields, one after the other.
pub proof fn lemma_fields_text_append(a: Seq<FieldV>, b: Seq<FieldV>)
    ensures
        fields_text(a + b) == fields_text(a) + fields_text(b),
    decreases a.len(),
{
    if a.len() == 0 {
        assert(a + b =~= b);
        assert(fields_text(a) + fields_text(b) =~= fields_text(b));
    } else {
        assert((a + b)[0] == a[0]);
        assert((a + b).drop_first() =~= a.drop_first() + b);
        lemma_fields_text_append(a.drop_first(), b);
        assert(fields_text(a + b) =~= fields_text(a) + fields_text(b));
    }
}

/// The text of one field.
pub proof fn lemma_fields_text_one(f: FieldV)
    ensures
        fields_text(seq![f]) == field_text(f.name, f.value),
{
    assert(seq![f][0] == f);
    assert(seq![f].drop_first().len() == 0);
    assert(fields_text(seq![f].drop_first()) =~= Seq::<char>::empty());
    assert(fields_text(seq![f]) =~= field_text(f.name, f.value));
}

proof fn lemma_split_fields(fs: Seq<FieldV>, rest: Seq<char>)
    requires
        fields_clean(fs),
    ensures
        split_lines(fields_text(fs) + rest) == field_lines(fs) + split_lines(rest),
    decreases fs.len(),
{
    if fs.len() == 0 {
        assert(fields_text(fs) + rest =~= rest);
        assert(field_lines(fs) + split_lines(rest) =~= split_lines(rest));
    } else {
        lemma_classify_field_line(fs[0]);
        assert(field_text(fs[0].name, fs[0].value) =~= field_line(fs[0]) + crlf());
        assert(fields_text(fs) + rest =~= field_line(fs[0]) + crlf() + (fields_text(
            fs.drop_first(),
        ) + rest));
        lemma_split_lines_line(field_line(fs[0]), fields_text(fs.drop_first()) + rest);
        assert forall|i: int| 0 <= i < fs.drop_first().len() implies name_ok(
            #[trigger] fs.drop_first()[i].name,
        ) && value_clean(fs.drop_first()[i].value) by {
            assert(fs.drop_first()[i] == fs[i + 1]);
        }
        lemma_split_fields(fs.drop_first(), rest);
        assert(field_lines(fs) =~= seq![field_line(fs[0])] + field_lines(fs.drop_first()));
        assert(split_lines(fields_text(fs) + rest) =~= field_lines(fs) + split_lines(rest));
    }
}

proof fn lemma_parse_fields(done: Seq<SectionV>, c: SectionV, fs: Seq<FieldV>, more: Seq<Seq<char>>)
    requires
        fields_clean(fs),
    ensures
        parse_cont(Some(ParseState { done, cur: Some(c) }), field_lines(fs) + more) == parse_cont(
            Some(
                ParseState {
                    done,
                    cur: Some(SectionV { name: c.name, fields: c.fields + fs }),
                },
            ),
            more,
        ),
    decreases fs.len(),
{
    if fs.len() == 0 {
        assert(field_lines(fs) + more =~= more);
        assert(c.fields + fs =~= c.fields);
        assert(SectionV { name: c.name, fields: c.fields + fs } =~~= c);
    } else {
        let ls = field_lines(fs) + more;
        assert(ls[0] == field_line(fs[0]));
        lemma_classify_field_line(fs[0]);
        assert(ls.drop_first() =~= field_lines(fs.drop_first()) + more);
        let c1 = SectionV { name: c.name, fields: c.fields.push(fs[0]) };
        assert(parse_line(Some(ParseState { done, cur: Some(c) }), ls[0]) == Some(
            ParseState { done, cur: Some(c1) },
        ));
        assert forall|i: int| 0 <= i < fs.drop_first().len() implies name_ok(
            #[trigger] fs.drop_first()[i].name,
        ) && value_clean(fs.drop_first()[i].value) by {
            assert(fs.drop_first()[i] == fs[i + 1]);
        }
        lemma_parse_fields(done, c1, fs.drop_first(), more);
        assert(c1.fields + fs.drop_first() =~= c.fields + fs);
    }
}

/// The text of one whole section.
pub open spec fn section_text(name: Seq<char>, fs: Seq<FieldV>) -> Seq<char> {
    header_text(name) + fields_text(fs)
}

/// The lines of one whole section.
pub open spec fn section_lines(name: Seq<char>, fs: Seq<FieldV>) -> Seq<Seq<char>> {
    seq![header_line(name)] + field_lines(fs)
}

proof fn lemma_split_section(name: Seq<char>, fs: Seq<FieldV>, rest: Seq<char>)
    requires
        header_name_ok(name),
        fields_clean(fs),
    ensures
        split_lines(section_text(name, fs) + rest) == section_lines(name, fs) + split_lines(rest),
{
    lemma_classify_header_line(name);
    assert(header_text(name) =~= header_line(name) + crlf());
    assert(section_text(name, fs) + rest =~= header_line(name) + crlf() + (fields_text(fs)
        + rest));
    lemma_split_lines_line(header_line(name), fields_text(fs) + rest);
    lemma_split_fields(fs, rest);
    assert(split_lines(section_text(name, fs) + rest) =~= section_lines(name, fs) + split_lines(
        rest,
    ));
}

proof fn lemma_parse_section(
    done: Seq<SectionV>,
    cur: Option<SectionV>,
    name: Seq<char>,
    fs: Seq<FieldV>,
    more: Seq<Seq<char>>,
)
    requires
        header_name_ok(name),
        fields_clean(fs),
    ensures
        parse_cont(Some(ParseState { done, cur }), section_lines(name, fs) + more) == parse_cont(
            Some(
                ParseState {
                    done: flush(ParseState { done, cur }),
                    cur: Some(SectionV { name, fields: fs }),
                },
            ),
            more,
        ),
{
    let ls = section_lines(name, fs) + more;
    assert(ls[0] == header_line(name));
    lemma_classify_header_line(name);
    assert(ls.drop_first() =~= field_lines(fs) + more);
    let c0 = SectionV { name, fields: Seq::empty() };
    assert(parse_line(Some(ParseState { done, cur }), ls[0]) == Some(
        ParseState { done: flush(ParseState { done, cur }), cur: Some(c0) },
    ));
    lemma_parse_fields(flush(ParseState { done, cur }), c0, fs, more);
    assert(Seq::<FieldV>::empty() + fs =~= fs);
}

/// The text of a run of sections, each given as its header name and its
/// emitted fields.
pub open spec fn sections_text_of(ss: Seq<(Seq<char>, Seq<FieldV>)>) -> Seq<char>
    decreases ss.len(),
{
    if ss.len() == 0 {
        Seq::empty()
    } else {
        section_text(ss[0].0, ss[0].1) + sections_text_of(ss.drop_first())
    }
}

/// The lines of a run of sections.
pub open spec fn sections_lines_of(ss: Seq<(Seq<char>, Seq<FieldV>)>) -> Seq<Seq<char>>
    decreases ss.len(),
{
    if ss.len() == 0 {
        Seq::empty()
    } else {
        section_lines(ss[0].0, ss[0].1) + sections_lines_of(ss.drop_first())
    }
}

/// The section views a run of emitted sections parses back to.
pub open spec fn secs_of(ss: Seq<(Seq<char>, Seq<FieldV>)>) -> Seq<SectionV> {
    ss.map_values(|p: (Seq<char>, Seq<FieldV>)| SectionV { name: p.0, fields: p.1 })
}

/// Every emitted section of the run is clean.
pub open spec fn entries_clean(ss: Seq<(Seq<char>, Seq<FieldV>)>) -> bool {
    forall|i: int| 0 <= i < ss.len() ==> header_name_ok(#[trigger] ss[i].0) && fields_clean(ss[i].1)
}

/// The text of two runs of sections, one after the other.
pub proof fn lemma_sections_text_append(
    a: Seq<(Seq<char>, Seq<FieldV>)>,
    b: Seq<(Seq<char>, Seq<FieldV>)>,
)
    ensures
        sections_text_of(a + b) == sections_text_of(a) + sections_text_of(b),
    decreases a.len(),
{
    if a.len() == 0 {
        assert(a + b =~= b);
        assert(sections_text_of(a) + sections_text_of(b) =~= sections_text_of(b));
    } else {
        assert((a + b)[0] == a[0]);
        assert((a + b).drop_first() =~= a.drop_first() + b);
        lemma_sections_text_append(a.drop_first(), b);
        assert(sections_text_of(a + b) =~= sections_text_of(a) + sections_text_of(b));
    }
}

/// The text of one section, as a one-entry run.
pub proof fn lemma_sections_text_one(name: Seq<char>, fs: Seq<FieldV>)
    ensures
        sections_text_of(seq![(name, fs)]) == section_text(name, fs),
{
    assert(seq![(name, fs)][0] == (name, fs));
    assert(seq![(name, fs)].drop_first().len() == 0);
    assert(sections_text_of(seq![(name, fs)].drop_first()) =~= Seq::<char>::empty());
    assert(sections_text_of(seq![(name, fs)]) =~= section_text(name, fs));
}

proof fn lemma_split_sections(ss: Seq<(Seq<char>, Seq<FieldV>)>, rest: Seq<char>)
    requires
        entries_clean(ss),
    ensures
        split_lines(sections_text_of(ss) + rest) == sections_lines_of(ss) + split_lines(rest),
    decreases ss.len(),
{
    if ss.len() == 0 {
        assert(sections_text_of(ss) + rest =~= rest);
        assert(sections_lines_of(ss) + split_lines(rest) =~= split_lines(rest));
    } else {
        assert forall|i: int| 0 <= i < ss.drop_first().len() implies header_name_ok(
            #[trigger] ss.drop_first()[i].0,
        ) && fields_clean(ss.drop_first()[i].1) by {
            assert(ss.drop_first()[i] == ss[i + 1]);
        }
        lemma_split_sections(ss.drop_first(), rest);
        assert(sections_text_of(ss) + rest =~= section_text(ss[0].0, ss[0].1) + (sections_text_of(
            ss.drop_first(),
        ) + rest));
        lemma_split_section(ss[0].0, ss[0].1, sections_text_of(ss.drop_first()) + rest);
        assert(split_lines(sections_text_of(ss) + rest) =~= sections_lines_of(ss) + split_lines(
            rest,
        ));
    }
}

proof fn lemma_parse_sections_list(
    done: Seq<SectionV>,
    cur: Option<SectionV>,
    ss: Seq<(Seq<char>, Seq<FieldV>)>,
)
    requires
        entries_clean(ss),
    ensures
        ({
            let res = parse_cont(Some(ParseState { done, cur }), sections_lines_of(ss));
            &&& res is Some
            &&& flush(res->0) == flush(ParseState { done, cur }) + secs_of(ss)
        }),
    decreases ss.len(),
{
    if ss.len() == 0 {
        assert(flush(ParseState { done, cur }) + secs_of(ss) =~= flush(ParseState { done, cur }));
    } else {
        let sec0 = SectionV { name: ss[0].0, fields: ss[0].1 };
        assert(sections_lines_of(ss) =~= section_lines(ss[0].0, ss[0].1) + sections_lines_of(
            ss.drop_first(),
        ));
        lemma_parse_section(done, cur, ss[0].0, ss[0].1, sections_lines_of(ss.drop_first()));
        assert forall|i: int| 0 <= i < ss.drop_first().len() implies header_name_ok(
            #[trigger] ss.drop_first()[i].0,
        ) && fields_clean(ss.drop_first()[i].1) by {
            assert(ss.drop_first()[i] == ss[i + 1]);
        }
        let flush0 = flush(ParseState { done, cur });
        lemma_parse_sections_list(flush0, Some(sec0), ss.drop_first());
        assert(flush(ParseState { done: flush0, cur: Some(sec0) }) =~= flush0.push(sec0));
        assert(secs_of(ss) =~= seq![sec0] + secs_of(ss.drop_first()));
        assert(flush0.push(sec0) + secs_of(ss.drop_first()) =~= flush0 + secs_of(ss));
    }
}

/// Parsing the text of a run of emitted sections gives exactly those
/// sections back.
pub proof fn lemma_parse_sections_text(ss: Seq<(Seq<char>, Seq<FieldV>)>)
    requires
        entries_clean(ss),
    ensures
        spec_parse_sections(sections_text_of(ss)) == Some(secs_of(ss)),
{
    let text = sections_text_of(ss);
    assert(text + Seq::<char>::empty() =~= text);
    lemma_split_sections(ss, Seq::empty());
    assert(lines_fold(Seq::<char>::empty()).0.len() == 0);
    assert(split_lines(Seq::<char>::empty()).len() == 0);
    let ls = split_lines(text);
    assert(ls =~= sections_lines_of(ss));
    lemma_parse_upto_cont(ls, ls.len() as int);
    assert(ls.take(ls.len() as int) =~= ls);
    assert(parse_upto(ls, 0) == Some(ParseState { done: Seq::empty(), cur: None }));
    lemma_parse_sections_list(Seq::empty(), None, ss);
    let res = parse_cont(
        Some(ParseState { done: Seq::empty(), cur: None }),
        sections_lines_of(ss),
    );
    assert(flush(res->0) =~= secs_of(ss));
}

/// A lookup skips a run of sections bearing other names.
pub proof fn lemma_find_section_skip(a: Seq<SectionV>, b: Seq<SectionV>, n: Seq<char>)
    requires
        forall|i: int| 0 <= i < a.len() ==> (#[trigger] a[i].name) != n,
    ensures
        find_section(a + b, n) == find_section(b, n),
    decreases a.len(),
{
    if a.len() == 0 {
        assert(a + b =~= b);
    } else {
        assert((a + b)[0] == a[0]);
        assert((a + b).drop_first() =~= a.drop_first() + b);
        assert forall|i: int| 0 <= i < a.drop_first().len() implies (#[trigger] a.drop_first()[i].name)
            != n by {
            assert(a.drop_first()[i] == a[i + 1]);
        }
        lemma_find_section_skip(a.drop_first(), b, n);
    }
}

/// A lookup over sections bearing other names finds nothing.
pub proof fn lemma_find_section_none(a: Seq<SectionV>, n: Seq<char>)
    requires
        forall|i: int| 0 <= i < a.len() ==> (#[trigger] a[i].name) != n,
    ensures
        find_section(a, n) is None,
{
    lemma_find_section_skip(a, Seq::empty(), n);
    assert(a + Seq::<SectionV>::empty() =~= a);
}


/// A lookup skips a run of fields bearing other names.
pub proof fn lemma_find_field_skip(a: Seq<FieldV>, b: Seq<FieldV>, n: Seq<char>)
    requires
        forall|i: int| 0 <= i < a.len() ==> (#[trigger] a[i].name) != n,
    ensures
        find_field(a + b, n) == find_field(b, n),
    decreases a.len(),
{
    if a.len() == 0 {
        assert(a + b =~= b);
    } else {
        assert((a + b)[0] == a[0]);
        assert((a + b).drop_first() =~= a.drop_first() + b);
        assert forall|i: int| 0 <= i < a.drop_first().len() implies (#[trigger] a.drop_first()[i].name)
            != n by {
            assert(a.drop_first()[i] == a[i + 1]);
        }
        lemma_find_field_skip(a.drop_first(), b, n);
    }
}

/// A lookup over fields bearing other names finds nothing.
pub proof fn lemma_find_field_none(a: Seq<FieldV>, n: Seq<char>)
    requires
        forall|i: int| 0 <= i < a.len() ==> (#[trigger] a[i].name) != n,
    ensures
        find_field(a, n) is None,
{
    lemma_find_field_skip(a, Seq::empty(), n);
    assert(a + Seq::<FieldV>::empty() =~= a);
}

/// A lookup stops at the first field of the sought name.
pub proof fn lemma_find_field_head(f: FieldV, b: Seq<FieldV>)
    ensures
        find_field(seq![f] + b, f.name) == Some(f.value),
{
    assert((seq![f] + b)[0] == f);
}

/// The field an optional value emits: one line, or nothing.
pub open spec fn opt_field(name: Seq<char>, v: Option<Seq<char>>) -> Seq<FieldV> {
    match v {
        Some(x) => seq![FieldV { name, value: x }],
        None => Seq::empty(),
    }
}

/// The fields the General section emits, in order.
pub open spec fn general_fields(g: GeneralV) -> Seq<FieldV> {
    seq![FieldV { name: "Name"@, value: g.name }] + opt_field("Appearance"@, g.appearance) + seq![
        FieldV { name: "AddressType"@, value: g.address_type },
        FieldV { name: "SupportedTechnologies"@, value: g.supported_technologies },
        FieldV { name: "Trusted"@, value: g.trusted },
        FieldV { name: "Blocked"@, value: g.blocked },
    ] + opt_field("WakeAllowed"@, g.wake_allowed) + seq![
        FieldV { name: "Services"@, value: g.services },
    ]
}

/// The fields the DeviceID section emits.
pub open spec fn device_id_fields(d: DeviceIdV) -> Seq<FieldV> {
    seq![
        FieldV { name: "Source"@, value: d.source },
        FieldV { name: "Vendor"@, value: d.vendor },
        FieldV { name: "Product"@, value: d.product },
        FieldV { name: "Version"@, value: d.version },
    ]
}

/// The fields the ConnectionParameters section emits.
pub open spec fn connection_parameters_fields(c: ConnectionParametersV) -> Seq<FieldV> {
    seq![
        FieldV { name: "MinInterval"@, value: c.min_interval },
        FieldV { name: "MaxInterval"@, value: c.max_interval },
        FieldV { name: "Latency"@, value: c.latency },
        FieldV { name: "Timeout"@, value: c.timeout },
    ]
}

/// The fields the LinkKey section emits.
pub open spec fn link_key_fields(l: LinkKeyV) -> Seq<FieldV> {
    seq![
        FieldV { name: "Key"@, value: l.key },
        FieldV { name: "Type"@, value: l.key_type },
        FieldV { name: "PINLength"@, value: l.pin_length },
    ]
}

/// The field a single-key section emits.
pub open spec fn single_key_fields(k: SingleKeyV) -> Seq<FieldV> {
    seq![FieldV { name: "Key"@, value: k.key }]
}

/// The fields a long-term-key section emits.
pub open spec fn ltk_section_fields(s: LtkSectionV) -> Seq<FieldV> {
    seq![
        FieldV { name: "Key"@, value: s.key },
        FieldV { name: "Authenticated"@, value: s.authenticated },
        FieldV { name: "EncSize"@, value: s.enc_size },
        FieldV { name: "EDiv"@, value: s.e_div },
        FieldV { name: "Rand"@, value: s.rand },
    ]
}

/// Every field name the serializer writes is a sound name, and every section
/// name a sound header name.
proof fn lemma_literal_names()
    ensures
        name_ok("Name"@),
        name_ok("Appearance"@),
        name_ok("AddressType"@),
        name_ok("SupportedTechnologies"@),
        name_ok("Trusted"@),
        name_ok("Blocked"@),
        name_ok("WakeAllowed"@),
        name_ok("Services"@),
        name_ok("Source"@),
        name_ok("Vendor"@),
        name_ok("Product"@),
        name_ok("Version"@),
        name_ok("MinInterval"@),
        name_ok("MaxInterval"@),
        name_ok("Latency"@),
        name_ok("Timeout"@),
        name_ok("Key"@),
        name_ok("Type"@),
        name_ok("PINLength"@),
        name_ok("Authenticated"@),
        name_ok("EncSize"@),
        name_ok("EDiv"@),
        name_ok("Rand"@),
        header_name_ok("General"@),
        header_name_ok("DeviceID"@),
        header_name_ok("ConnectionParameters"@),
        header_name_ok("LinkKey"@),
        header_name_ok("IdentityResolvingKey"@),
        header_name_ok("SlaveLongTermKey"@),
        header_name_ok("PeripheralLongTermKey"@),
        header_name_ok("LocalSignatureKey"@),
        header_name_ok("LongTermKey"@),
{
    reveal_strlit("Name");
    reveal_strlit("Appearance");
    reveal_strlit("AddressType");
    reveal_strlit("SupportedTechnologies");
    reveal_strlit("Trusted");
    reveal_strlit("Blocked");
    reveal_strlit("WakeAllowed");
    reveal_strlit("Services");
    reveal_strlit("Source");
    reveal_strlit("Vendor");
    reveal_strlit("Product");
    reveal_strlit("Version");
    reveal_strlit("MinInterval");
    reveal_strlit("MaxInterval");
    reveal_strlit("Latency");
    reveal_strlit("Timeout");
    reveal_strlit("Key");
    reveal_strlit("Type");
    reveal_strlit("PINLength");
    reveal_strlit("Authenticated");
    reveal_strlit("EncSize");
    reveal_strlit("EDiv");
    reveal_strlit("Rand");
    reveal_strlit("General");
    reveal_strlit("DeviceID");
    reveal_strlit("ConnectionParameters");
    reveal_strlit("LinkKey");
    reveal_strlit("IdentityResolvingKey");
    reveal_strlit("SlaveLongTermKey");
    reveal_strlit("PeripheralLongTermKey");
    reveal_strlit("LocalSignatureKey");
    reveal_strlit("LongTermKey");
    lemma_ends_clean_trim("Name"@);
    lemma_ends_clean_trim("Appearance"@);
    lemma_ends_clean_trim("AddressType"@);
    lemma_ends_clean_trim("SupportedTechnologies"@);
    lemma_ends_clean_trim("Trusted"@);
    lemma_ends_clean_trim("Blocked"@);
    lemma_ends_clean_trim("WakeAllowed"@);
    lemma_ends_clean_trim("Services"@);
    lemma_ends_clean_trim("Source"@);
    lemma_ends_clean_trim("Vendor"@);
    lemma_ends_clean_trim("Product"@);
    lemma_ends_clean_trim("Version"@);
    lemma_ends_clean_trim("MinInterval"@);
    lemma_ends_clean_trim("MaxInterval"@);
    lemma_ends_clean_trim("Latency"@);
    lemma_ends_clean_trim("Timeout"@);
    lemma_ends_clean_trim("Key"@);
    lemma_ends_clean_trim("Type"@);
    lemma_ends_clean_trim("PINLength"@);
    lemma_ends_clean_trim("Authenticated"@);
    lemma_ends_clean_trim("EncSize"@);
    lemma_ends_clean_trim("EDiv"@);
    lemma_ends_clean_trim("Rand"@);
}

/// Splitting one field off the front of a run's text.
proof fn lemma_fields_text_cons(f: FieldV, rest: Seq<FieldV>)
    ensures
        fields_text(seq![f] + rest) == field_text(f.name, f.value) + fields_text(rest),
{
    assert((seq![f] + rest)[0] == f);
    assert((seq![f] + rest).drop_first() =~= rest);
    assert(fields_text(seq![f] + rest) =~= field_text(f.name, f.value) + fields_text(rest));
}

/// The text of an optional field's run.
proof fn lemma_fields_text_opt(name: Seq<char>, v: Option<Seq<char>>)
    ensures
        fields_text(opt_field(name, v)) == opt_field_text(name, v),
{
    match v {
        Some(x) => {
            lemma_fields_text_one(FieldV { name, value: x });
        },
        None => {
        },
    }
}

proof fn lemma_general_text_entry(g: GeneralV)
    ensures
        general_text(g) == section_text("General"@, general_fields(g)),
{
    let a = seq![FieldV { name: "Name"@, value: g.name }];
    let b = opt_field("Appearance"@, g.appearance);
    let c = seq![
        FieldV { name: "AddressType"@, value: g.address_type },
        FieldV { name: "SupportedTechnologies"@, value: g.supported_technologies },
        FieldV { name: "Trusted"@, value: g.trusted },
        FieldV { name: "Blocked"@, value: g.blocked },
    ];
    let d = opt_field("WakeAllowed"@, g.wake_allowed);
    let e = seq![FieldV { name: "Services"@, value: g.services }];
    lemma_fields_text_append(a + b + c + d, e);
    lemma_fields_text_append(a + b + c, d);
    lemma_fields_text_append(a + b, c);
    lemma_fields_text_append(a, b);
    lemma_fields_text_one(a[0]);
    lemma_fields_text_opt("Appearance"@, g.appearance);
    lemma_fields_text_opt("WakeAllowed"@, g.wake_allowed);
    let c1 = seq![
        FieldV { name: "SupportedTechnologies"@, value: g.supported_technologies },
        FieldV { name: "Trusted"@, value: g.trusted },
        FieldV { name: "Blocked"@, value: g.blocked },
    ];
    let c2 = seq![
        FieldV { name: "Trusted"@, value: g.trusted },
        FieldV { name: "Blocked"@, value: g.blocked },
    ];
    let c3 = seq![FieldV { name: "Blocked"@, value: g.blocked }];
    assert(c =~= seq![c[0]] + c1);
    lemma_fields_text_cons(c[0], c1);
    assert(c1 =~= seq![c1[0]] + c2);
    lemma_fields_text_cons(c1[0], c2);
    assert(c2 =~= seq![c2[0]] + c3);
    lemma_fields_text_cons(c2[0], c3);
    lemma_fields_text_one(c3[0]);
    lemma_fields_text_one(e[0]);
    assert(general_text(g) =~= section_text("General"@, general_fields(g)));
}

proof fn lemma_device_id_text_entry(x: DeviceIdV)
    ensures
        device_id_text(x) == section_text("DeviceID"@, device_id_fields(x)),
{
    let fs = device_id_fields(x);
    let c1 = seq![
        FieldV { name: "Vendor"@, value: x.vendor },
        FieldV { name: "Product"@, value: x.product },
        FieldV { name: "Version"@, value: x.version },
    ];
    let c2 = seq![
        FieldV { name: "Product"@, value: x.product },
        FieldV { name: "Version"@, value: x.version },
    ];
    let c3 = seq![FieldV { name: "Version"@, value: x.version }];
    assert(fs =~= seq![fs[0]] + c1);
    lemma_fields_text_cons(fs[0], c1);
    assert(c1 =~= seq![c1[0]] + c2);
    lemma_fields_text_cons(c1[0], c2);
    assert(c2 =~= seq![c2[0]] + c3);
    lemma_fields_text_cons(c2[0], c3);
    lemma_fields_text_one(c3[0]);
    assert(device_id_text(x) =~= section_text("DeviceID"@, fs));
}

proof fn lemma_connection_parameters_text_entry(x: ConnectionParametersV)
    ensures
        connection_parameters_text(x) == section_text(
            "ConnectionParameters"@,
            connection_parameters_fields(x),
        ),
{
    let fs = connection_parameters_fields(x);
    let c1 = seq![
        FieldV { name: "MaxInterval"@, value: x.max_interval },
        FieldV { name: "Latency"@, value: x.latency },
        FieldV { name: "Timeout"@, value: x.timeout },
    ];
    let c2 = seq![
        FieldV { name: "Latency"@, value: x.latency },
        FieldV { name: "Timeout"@, value: x.timeout },
    ];
    let c3 = seq![FieldV { name: "Timeout"@, value: x.timeout }];
    assert(fs =~= seq![fs[0]] + c1);
    lemma_fields_text_cons(fs[0], c1);
    assert(c1 =~= seq![c1[0]] + c2);
    lemma_fields_text_cons(c1[0], c2);
    assert(c2 =~= seq![c2[0]] + c3);
    lemma_fields_text_cons(c2[0], c3);
    lemma_fields_text_one(c3[0]);
    assert(connection_parameters_text(x) =~= section_text("ConnectionParameters"@, fs));
}

proof fn lemma_link_key_text_entry(x: LinkKeyV)
    ensures
        link_key_text(x) == section_text("LinkKey"@, link_key_fields(x)),
{
    let fs = link_key_fields(x);
    let c1 = seq![
        FieldV { name: "Type"@, value: x.key_type },
        FieldV { name: "PINLength"@, value: x.pin_length },
    ];
    let c2 = seq![FieldV { name: "PINLength"@, value: x.pin_length }];
    assert(fs =~= seq![fs[0]] + c1);
    lemma_fields_text_cons(fs[0], c1);
    assert(c1 =~= seq![c1[0]] + c2);
    lemma_fields_text_cons(c1[0], c2);
    lemma_fields_text_one(c2[0]);
    assert(link_key_text(x) =~= section_text("LinkKey"@, fs));
}

proof fn lemma_single_key_text_entry(name: Seq<char>, x: SingleKeyV)
    ensures
        single_key_text(name, x) == section_text(name, single_key_fields(x)),
{
    lemma_fields_text_one(single_key_fields(x)[0]);
    assert(single_key_fields(x) =~= seq![FieldV { name: "Key"@, value: x.key }]);
    assert(single_key_text(name, x) =~= section_text(name, single_key_fields(x)));
}

proof fn lemma_ltk_section_text_entry(name: Seq<char>, x: LtkSectionV)
    ensures
        ltk_section_text(name, x) == section_text(name, ltk_section_fields(x)),
{
    let fs = ltk_section_fields(x);
    let c1 = seq![
        FieldV { name: "Authenticated"@, value: x.authenticated },
        FieldV { name: "EncSize"@, value: x.enc_size },
        FieldV { name: "EDiv"@, value: x.e_div },
        FieldV { name: "Rand"@, value: x.rand },
    ];
    let c2 = seq![
        FieldV { name: "EncSize"@, value: x.enc_size },
        FieldV { name: "EDiv"@, value: x.e_div },
        FieldV { name: "Rand"@, value: x.rand },
    ];
    let c3 = seq![
        FieldV { name: "EDiv"@, value: x.e_div },
        FieldV { name: "Rand"@, value: x.rand },
    ];
    let c4 = seq![FieldV { name: "Rand"@, value: x.rand }];
    assert(fs =~= seq![fs[0]] + c1);
    lemma_fields_text_cons(fs[0], c1);
    assert(c1 =~= seq![c1[0]] + c2);
    lemma_fields_text_cons(c1[0], c2);
    assert(c2 =~= seq![c2[0]] + c3);
    lemma_fields_text_cons(c2[0], c3);
    assert(c3 =~= seq![c3[0]] + c4);
    lemma_fields_text_cons(c3[0], c4);
    lemma_fields_text_one(c4[0]);
    assert(ltk_section_text(name, x) =~= section_text(name, fs));
}

#[verifier::rlimit(100)]
#[verifier::spinoff_prover]
proof fn lemma_general_recover(g: GeneralV)
    ensures
        general_of(general_fields(g)) == Some(g),
{
    reveal_strlit("Name");
    reveal_strlit("Appearance");
    reveal_strlit("AddressType");
    reveal_strlit("SupportedTechnologies");
    reveal_strlit("Trusted");
    reveal_strlit("Blocked");
    reveal_strlit("WakeAllowed");
    reveal_strlit("Services");
    assert("Name"@[0] == 'N' && "Name"@[1] == 'a');
    assert("Appearance"@[0] == 'A' && "Appearance"@[1] == 'p');
    assert("AddressType"@[0] == 'A' && "AddressType"@[1] == 'd');
    assert("SupportedTechnologies"@[0] == 'S' && "SupportedTechnologies"@[1] == 'u');
    assert("Trusted"@[0] == 'T' && "Trusted"@[1] == 'r');
    assert("Blocked"@[0] == 'B' && "Blocked"@[1] == 'l');
    assert("WakeAllowed"@[0] == 'W' && "WakeAllowed"@[1] == 'a');
    assert("Services"@[0] == 'S' && "Services"@[1] == 'e');
    let a = seq![FieldV { name: "Name"@, value: g.name }];
    let b = opt_field("Appearance"@, g.appearance);
    let c = seq![
        FieldV { name: "AddressType"@, value: g.address_type },
        FieldV { name: "SupportedTechnologies"@, value: g.supported_technologies },
        FieldV { name: "Trusted"@, value: g.trusted },
        FieldV { name: "Blocked"@, value: g.blocked },
    ];
    let d = opt_field("WakeAllowed"@, g.wake_allowed);
    let e = seq![FieldV { name: "Services"@, value: g.services }];
    let fs = general_fields(g);
    assert(fs =~= a + b + c + d + e);
    assert(b.len() <= 1 && (b.len() == 1 ==> b[0].name == "Appearance"@ && b[0].value
        == g.appearance->0));
    assert(d.len() <= 1 && (d.len() == 1 ==> d[0].name == "WakeAllowed"@ && d[0].value
        == g.wake_allowed->0));

    assert(fs =~= seq![a[0]] + (b + c + d + e));
    lemma_find_field_head(a[0], b + c + d + e);
    assert(find_field(fs, "Name"@) == Some(g.name));

    match g.appearance {
        Some(v) => {
            assert(fs =~= a + (seq![b[0]] + (c + d + e)));
            assert(forall|i: int| 0 <= i < a.len() ==> (#[trigger] a[i].name) != "Appearance"@);
            lemma_find_field_skip(a, seq![b[0]] + (c + d + e), "Appearance"@);
            lemma_find_field_head(b[0], c + d + e);
            assert(find_field(fs, "Appearance"@) == Some(v));
        },
        None => {
            assert forall|i: int| 0 <= i < fs.len() implies (#[trigger] fs[i].name)
                != "Appearance"@ by {
                if i < 1 {
                    assert(fs[i] == a[0]);
                } else if i < 5 {
                    assert(fs[i] == c[i - 1]);
                } else if i < 5 + d.len() {
                    assert(fs[i] == d[i - 5]);
                } else {
                    assert(fs[i] == e[0]);
                }
            }
            lemma_find_field_none(fs, "Appearance"@);
        },
    }

    let pre2 = a + b;
    assert forall|i: int| 0 <= i < pre2.len() implies (#[trigger] pre2[i].name)
        != "AddressType"@ && pre2[i].name != "SupportedTechnologies"@ && pre2[i].name != "Trusted"@
        && pre2[i].name != "Blocked"@ && pre2[i].name != "WakeAllowed"@ && pre2[i].name
        != "Services"@ by {
        if i < 1 {
            assert(pre2[i] == a[0]);
        } else {
            assert(pre2[i] == b[i - 1]);
        }
    }

    assert(fs =~= pre2 + (seq![c[0]] + (c.drop_first() + d + e)));
    lemma_find_field_skip(pre2, seq![c[0]] + (c.drop_first() + d + e), "AddressType"@);
    lemma_find_field_head(c[0], c.drop_first() + d + e);
    assert(find_field(fs, "AddressType"@) == Some(g.address_type));

    let pre3 = pre2 + seq![c[0]];
    assert forall|i: int| 0 <= i < pre3.len() implies (#[trigger] pre3[i].name)
        != "SupportedTechnologies"@ && pre3[i].name != "Trusted"@ && pre3[i].name != "Blocked"@
        && pre3[i].name != "WakeAllowed"@ && pre3[i].name != "Services"@ by {
        if i < pre2.len() {
            assert(pre3[i] == pre2[i]);
        } else {
            assert(pre3[i] == c[0]);
        }
    }
    assert(fs =~= pre3 + (seq![c[1]] + (seq![c[2], c[3]] + d + e)));
    lemma_find_field_skip(pre3, seq![c[1]] + (seq![c[2], c[3]] + d + e), "SupportedTechnologies"@);
    lemma_find_field_head(c[1], seq![c[2], c[3]] + d + e);
    assert(find_field(fs, "SupportedTechnologies"@) == Some(g.supported_technologies));

    let pre4 = pre3 + seq![c[1]];
    assert forall|i: int| 0 <= i < pre4.len() implies (#[trigger] pre4[i].name) != "Trusted"@
        && pre4[i].name != "Blocked"@ && pre4[i].name != "WakeAllowed"@ && pre4[i].name
        != "Services"@ by {
        if i < pre3.len() {
            assert(pre4[i] == pre3[i]);
        } else {
            assert(pre4[i] == c[1]);
        }
    }
    assert(fs =~= pre4 + (seq![c[2]] + (seq![c[3]] + d + e)));
    lemma_find_field_skip(pre4, seq![c[2]] + (seq![c[3]] + d + e), "Trusted"@);
    lemma_find_field_head(c[2], seq![c[3]] + d + e);
    assert(find_field(fs, "Trusted"@) == Some(g.trusted));

    let pre5 = pre4 + seq![c[2]];
    assert forall|i: int| 0 <= i < pre5.len() implies (#[trigger] pre5[i].name) != "Blocked"@
        && pre5[i].name != "WakeAllowed"@ && pre5[i].name != "Services"@ by {
        if i < pre4.len() {
            assert(pre5[i] == pre4[i]);
        } else {
            assert(pre5[i] == c[2]);
        }
    }
    assert(fs =~= pre5 + (seq![c[3]] + (d + e)));
    lemma_find_field_skip(pre5, seq![c[3]] + (d + e), "Blocked"@);
    lemma_find_field_head(c[3], d + e);
    assert(find_field(fs, "Blocked"@) == Some(g.blocked));

    let pre6 = pre5 + seq![c[3]];
    assert forall|i: int| 0 <= i < pre6.len() implies (#[trigger] pre6[i].name) != "WakeAllowed"@
        && pre6[i].name != "Services"@ by {
        if i < pre5.len() {
            assert(pre6[i] == pre5[i]);
        } else {
            assert(pre6[i] == c[3]);
        }
    }
    match g.wake_allowed {
        Some(v) => {
            assert(fs =~= pre6 + (seq![d[0]] + e));
            lemma_find_field_skip(pre6, seq![d[0]] + e, "WakeAllowed"@);
            lemma_find_field_head(d[0], e);
            assert(find_field(fs, "WakeAllowed"@) == Some(v));
        },
        None => {
            assert forall|i: int| 0 <= i < fs.len() implies (#[trigger] fs[i].name)
                != "WakeAllowed"@ by {
                if i < pre6.len() {
                    assert(fs[i] == pre6[i]);
                } else {
                    assert(fs[i] == e[0]);
                }
            }
            lemma_find_field_none(fs, "WakeAllowed"@);
        },
    }

    let pre7 = pre6 + d;
    assert forall|i: int| 0 <= i < pre7.len() implies (#[trigger] pre7[i].name) != "Services"@ by {
        if i < pre6.len() {
            assert(pre7[i] == pre6[i]);
        } else {
            assert(pre7[i] == d[i - pre6.len()]);
        }
    }
    assert(fs =~= pre7 + (seq![e[0]] + Seq::<FieldV>::empty()));
    lemma_find_field_skip(pre7, seq![e[0]] + Seq::<FieldV>::empty(), "Services"@);
    lemma_find_field_head(e[0], Seq::empty());
    assert(find_field(fs, "Services"@) == Some(g.services));

    assert(general_of(fs)->0 =~~= g);
}

proof fn lemma_device_id_recover(x: DeviceIdV)
    ensures
        device_id_of(device_id_fields(x)) == Some(x),
{
    reveal_strlit("Source");
    reveal_strlit("Vendor");
    reveal_strlit("Product");
    reveal_strlit("Version");
    assert("Source"@[0] == 'S');
    assert("Vendor"@[0] == 'V' && "Vendor"@[1] == 'e' && "Vendor"@[2] == 'n');
    assert("Product"@[0] == 'P');
    assert("Version"@[0] == 'V' && "Version"@[1] == 'e' && "Version"@[2] == 'r');
    let fs = device_id_fields(x);
    let f0 = fs[0];
    let f1 = fs[1];
    let f2 = fs[2];
    let f3 = fs[3];
    assert(fs =~= seq![f0] + seq![f1, f2, f3]);
    lemma_find_field_head(f0, seq![f1, f2, f3]);
    assert(fs =~= seq![f0] + (seq![f1] + seq![f2, f3]));
    lemma_find_field_skip(seq![f0], seq![f1] + seq![f2, f3], "Vendor"@);
    lemma_find_field_head(f1, seq![f2, f3]);
    assert(fs =~= seq![f0, f1] + (seq![f2] + seq![f3]));
    lemma_find_field_skip(seq![f0, f1], seq![f2] + seq![f3], "Product"@);
    lemma_find_field_head(f2, seq![f3]);
    assert(fs =~= seq![f0, f1, f2] + (seq![f3] + Seq::<FieldV>::empty()));
    lemma_find_field_skip(seq![f0, f1, f2], seq![f3] + Seq::<FieldV>::empty(), "Version"@);
    lemma_find_field_head(f3, Seq::empty());
    assert(device_id_of(fs)->0 =~~= x);
}

proof fn lemma_connection_parameters_recover(x: ConnectionParametersV)
    ensures
        connection_parameters_of(connection_parameters_fields(x)) == Some(x),
{
    reveal_strlit("MinInterval");
    reveal_strlit("MaxInterval");
    reveal_strlit("Latency");
    reveal_strlit("Timeout");
    assert("MinInterval"@[0] == 'M' && "MinInterval"@[1] == 'i');
    assert("MaxInterval"@[0] == 'M' && "MaxInterval"@[1] == 'a');
    assert("Latency"@[0] == 'L');
    assert("Timeout"@[0] == 'T');
    let fs = connection_parameters_fields(x);
    let f0 = fs[0];
    let f1 = fs[1];
    let f2 = fs[2];
    let f3 = fs[3];
    assert(fs =~= seq![f0] + seq![f1, f2, f3]);
    lemma_find_field_head(f0, seq![f1, f2, f3]);
    assert(fs =~= seq![f0] + (seq![f1] + seq![f2, f3]));
    lemma_find_field_skip(seq![f0], seq![f1] + seq![f2, f3], "MaxInterval"@);
    lemma_find_field_head(f1, seq![f2, f3]);
    assert(fs =~= seq![f0, f1] + (seq![f2] + seq![f3]));
    lemma_find_field_skip(seq![f0, f1], seq![f2] + seq![f3], "Latency"@);
    lemma_find_field_head(f2, seq![f3]);
    assert(fs =~= seq![f0, f1, f2] + (seq![f3] + Seq::<FieldV>::empty()));
    lemma_find_field_skip(seq![f0, f1, f2], seq![f3] + Seq::<FieldV>::empty(), "Timeout"@);
    lemma_find_field_head(f3, Seq::empty());
    assert(connection_parameters_of(fs)->0 =~~= x);
}

proof fn lemma_link_key_recover(x: LinkKeyV)
    ensures
        link_key_of(link_key_fields(x)) == Some(x),
{
    reveal_strlit("Key");
    reveal_strlit("Type");
    reveal_strlit("PINLength");
    assert("Key"@[0] == 'K');
    assert("Type"@[0] == 'T');
    assert("PINLength"@[0] == 'P');
    let fs = link_key_fields(x);
    let f0 = fs[0];
    let f1 = fs[1];
    let f2 = fs[2];
    assert(fs =~= seq![f0] + seq![f1, f2]);
    lemma_find_field_head(f0, seq![f1, f2]);
    assert(fs =~= seq![f0] + (seq![f1] + seq![f2]));
    lemma_find_field_skip(seq![f0], seq![f1] + seq![f2], "Type"@);
    lemma_find_field_head(f1, seq![f2]);
    assert(fs =~= seq![f0, f1] + (seq![f2] + Seq::<FieldV>::empty()));
    lemma_find_field_skip(seq![f0, f1], seq![f2] + Seq::<FieldV>::empty(), "PINLength"@);
    lemma_find_field_head(f2, Seq::empty());
    assert(link_key_of(fs)->0 =~~= x);
}

proof fn lemma_single_key_recover(x: SingleKeyV)
    ensures
        single_key_of(single_key_fields(x)) == Some(x),
{
    reveal_strlit("Key");
    let fs = single_key_fields(x);
    assert(fs =~= seq![fs[0]] + Seq::<FieldV>::empty());
    lemma_find_field_head(fs[0], Seq::empty());
    assert(single_key_of(fs)->0 =~~= x);
}

proof fn lemma_ltk_section_recover(x: LtkSectionV)
    ensures
        ltk_section_of(ltk_section_fields(x)) == Some(x),
{
    reveal_strlit("Key");
    reveal_strlit("Authenticated");
    reveal_strlit("EncSize");
    reveal_strlit("EDiv");
    reveal_strlit("Rand");
    assert("Key"@[0] == 'K');
    assert("Authenticated"@[0] == 'A');
    assert("EncSize"@[0] == 'E' && "EncSize"@[1] == 'n');
    assert("EDiv"@[0] == 'E' && "EDiv"@[1] == 'D');
    assert("Rand"@[0] == 'R');
    let fs = ltk_section_fields(x);
    let f0 = fs[0];
    let f1 = fs[1];
    let f2 = fs[2];
    let f3 = fs[3];
    let f4 = fs[4];
    assert(fs =~= seq![f0] + seq![f1, f2, f3, f4]);
    lemma_find_field_head(f0, seq![f1, f2, f3, f4]);
    assert(fs =~= seq![f0] + (seq![f1] + seq![f2, f3, f4]));
    lemma_find_field_skip(seq![f0], seq![f1] + seq![f2, f3, f4], "Authenticated"@);
    lemma_find_field_head(f1, seq![f2, f3, f4]);
    assert(fs =~= seq![f0, f1] + (seq![f2] + seq![f3, f4]));
    lemma_find_field_skip(seq![f0, f1], seq![f2] + seq![f3, f4], "EncSize"@);
    lemma_find_field_head(f2, seq![f3, f4]);
    assert(fs =~= seq![f0, f1, f2] + (seq![f3] + seq![f4]));
    lemma_find_field_skip(seq![f0, f1, f2], seq![f3] + seq![f4], "EDiv"@);
    lemma_find_field_head(f3, seq![f4]);
    assert(fs =~= seq![f0, f1, f2, f3] + (seq![f4] + Seq::<FieldV>::empty()));
    lemma_find_field_skip(seq![f0, f1, f2, f3], seq![f4] + Seq::<FieldV>::empty(), "Rand"@);
    lemma_find_field_head(f4, Seq::empty());
    assert(ltk_section_of(fs)->0 =~~= x);
}

/// An optional value is clean where present.
pub open spec fn opt_value_clean(v: Option<Seq<char>>) -> bool {
    match v {
        Some(x) => value_clean(x),
        None => true,
    }
}

/// Every value of the General section is clean.
pub open spec fn general_clean(g: GeneralV) -> bool {
    &&& value_clean(g.name)
    &&& opt_value_clean(g.appearance)
    &&& value_clean(g.address_type)
    &&& value_clean(g.supported_technologies)
    &&& value_clean(g.trusted)
    &&& value_clean(g.blocked)
    &&& opt_value_clean(g.wake_allowed)
    &&& value_clean(g.services)
}

/// Every value of the DeviceID section is clean.
pub open spec fn device_id_clean(x: DeviceIdV) -> bool {
    value_clean(x.source) && value_clean(x.vendor) && value_clean(x.product) && value_clean(
        x.version,
    )
}

/// Every value of the ConnectionParameters section is clean.
pub open spec fn connection_parameters_clean(x: ConnectionParametersV) -> bool {
    value_clean(x.min_interval) && value_clean(x.max_interval) && value_clean(x.latency)
        && value_clean(x.timeout)
}

/// Every value of the LinkKey section is clean.
pub open spec fn link_key_clean(x: LinkKeyV) -> bool {
    value_clean(x.key) && value_clean(x.key_type) && value_clean(x.pin_length)
}

/// The value of a single-key section is clean.
pub open spec fn single_key_clean(x: SingleKeyV) -> bool {
    value_clean(x.key)
}

/// Every value of a long-term-key section is clean.
pub open spec fn ltk_section_clean(x: LtkSectionV) -> bool {
    value_clean(x.key) && value_clean(x.authenticated) && value_clean(x.enc_size) && value_clean(
        x.e_div,
    ) && value_clean(x.rand)
}

/// Every string the record holds is clean: it carries no line break and no
/// surrounding whitespace, so the serialized text reads back unchanged.
pub open spec fn record_clean(d: BtDeviceV) -> bool {
    &&& match d.general {
        Some(g) => general_clean(g),
        None => true,
    }
    &&& match d.device_id {
        Some(x) => device_id_clean(x),
        None => true,
    }
    &&& match d.connection_parameters {
        Some(x) => connection_parameters_clean(x),
        None => true,
    }
    &&& match d.link_key {
        Some(x) => link_key_clean(x),
        None => true,
    }
    &&& match d.identity_resolving_key {
        Some(x) => single_key_clean(x),
        None => true,
    }
    &&& match d.slave_long_term_key {
        Some(x) => ltk_section_clean(x),
        None => true,
    }
    &&& match d.peripheral_long_term_key {
        Some(x) => ltk_section_clean(x),
        None => true,
    }
    &&& match d.local_signature_key {
        Some(x) => single_key_clean(x),
        None => true,
    }
    &&& match d.long_term_key {
        Some(x) => ltk_section_clean(x),
        None => true,
    }
}

proof fn lemma_general_fields_clean(g: GeneralV)
    requires
        general_clean(g),
    ensures
        fields_clean(general_fields(g)),
{
    lemma_literal_names();
    let a = seq![FieldV { name: "Name"@, value: g.name }];
    let b = opt_field("Appearance"@, g.appearance);
    let c = seq![
        FieldV { name: "AddressType"@, value: g.address_type },
        FieldV { name: "SupportedTechnologies"@, value: g.supported_technologies },
        FieldV { name: "Trusted"@, value: g.trusted },
        FieldV { name: "Blocked"@, value: g.blocked },
    ];
    let d = opt_field("WakeAllowed"@, g.wake_allowed);
    let e = seq![FieldV { name: "Services"@, value: g.services }];
    let fs = general_fields(g);
    assert(fs =~= a + b + c + d + e);
    assert forall|i: int| 0 <= i < fs.len() implies name_ok(#[trigger] fs[i].name) && value_clean(
        fs[i].value,
    ) by {
        if i < 1 {
            assert(fs[i] == a[0]);
        } else if i < 1 + b.len() {
            assert(fs[i] == b[0]);
        } else if i < 1 + b.len() + 4 {
            assert(fs[i] == c[i - 1 - b.len()]);
        } else if i < 1 + b.len() + 4 + d.len() {
            assert(fs[i] == d[0]);
        } else {
            assert(fs[i] == e[0]);
        }
    }
}

proof fn lemma_device_id_fields_clean(x: DeviceIdV)
    requires
        device_id_clean(x),
    ensures
        fields_clean(device_id_fields(x)),
{
    lemma_literal_names();
    let fs = device_id_fields(x);
    assert forall|i: int| 0 <= i < fs.len() implies name_ok(#[trigger] fs[i].name) && value_clean(
        fs[i].value,
    ) by {
        assert(fs[0].name == "Source"@ && fs[1].name == "Vendor"@ && fs[2].name == "Product"@
            && fs[3].name == "Version"@);
    }
}

proof fn lemma_connection_parameters_fields_clean(x: ConnectionParametersV)
    requires
        connection_parameters_clean(x),
    ensures
        fields_clean(connection_parameters_fields(x)),
{
    lemma_literal_names();
    let fs = connection_parameters_fields(x);
    assert forall|i: int| 0 <= i < fs.len() implies name_ok(#[trigger] fs[i].name) && value_clean(
        fs[i].value,
    ) by {
        assert(fs[0].name == "MinInterval"@ && fs[1].name == "MaxInterval"@ && fs[2].name
            == "Latency"@ && fs[3].name == "Timeout"@);
    }
}

proof fn lemma_link_key_fields_clean(x: LinkKeyV)
    requires
        link_key_clean(x),
    ensures
        fields_clean(link_key_fields(x)),
{
    lemma_literal_names();
    let fs = link_key_fields(x);
    assert forall|i: int| 0 <= i < fs.len() implies name_ok(#[trigger] fs[i].name) && value_clean(
        fs[i].value,
    ) by {
        assert(fs[0].name == "Key"@ && fs[1].name == "Type"@ && fs[2].name == "PINLength"@);
    }
}

proof fn lemma_single_key_fields_clean(x: SingleKeyV)
    requires
        single_key_clean(x),
    ensures
        fields_clean(single_key_fields(x)),
{
    lemma_literal_names();
    let fs = single_key_fields(x);
    assert forall|i: int| 0 <= i < fs.len() implies name_ok(#[trigger] fs[i].name) && value_clean(
        fs[i].value,
    ) by {
        assert(fs[0].name == "Key"@);
    }
}

proof fn lemma_ltk_section_fields_clean(x: LtkSectionV)
    requires
        ltk_section_clean(x),
    ensures
        fields_clean(ltk_section_fields(x)),
{
    lemma_literal_names();
    let fs = ltk_section_fields(x);
    assert forall|i: int| 0 <= i < fs.len() implies name_ok(#[trigger] fs[i].name) && value_clean(
        fs[i].value,
    ) by {
        assert(fs[0].name == "Key"@ && fs[1].name == "Authenticated"@ && fs[2].name == "EncSize"@
            && fs[3].name == "EDiv"@ && fs[4].name == "Rand"@);
    }
}

/// The sections a record emits, in their fixed order: each present section
/// as its header name and its fields.
pub open spec fn rec_entries(d: BtDeviceV) -> Seq<(Seq<char>, Seq<FieldV>)> {
    (match d.general {
        Some(g) => seq![("General"@, general_fields(g))],
        None => Seq::empty(),
    }) + (match d.device_id {
        Some(x) => seq![("DeviceID"@, device_id_fields(x))],
        None => Seq::empty(),
    }) + (match d.connection_parameters {
        Some(x) => seq![("ConnectionParameters"@, connection_parameters_fields(x))],
        None => Seq::empty(),
    }) + (match d.link_key {
        Some(x) => seq![("LinkKey"@, link_key_fields(x))],
        None => Seq::empty(),
    }) + (match d.identity_resolving_key {
        Some(x) => seq![("IdentityResolvingKey"@, single_key_fields(x))],
        None => Seq::empty(),
    }) + (match d.slave_long_term_key {
        Some(x) => seq![("SlaveLongTermKey"@, ltk_section_fields(x))],
        None => Seq::empty(),
    }) + (match d.peripheral_long_term_key {
        Some(x) => seq![("PeripheralLongTermKey"@, ltk_section_fields(x))],
        None => Seq::empty(),
    }) + (match d.local_signature_key {
        Some(x) => seq![("LocalSignatureKey"@, single_key_fields(x))],
        None => Seq::empty(),
    }) + (match d.long_term_key {
        Some(x) => seq![("LongTermKey"@, ltk_section_fields(x))],
        None => Seq::empty(),
    })
}

proof fn lemma_info_text_entries(d: BtDeviceV)
    ensures
        info_text(d) == sections_text_of(rec_entries(d)),
{
    let e1 = match d.general {
        Some(g) => seq![("General"@, general_fields(g))],
        None => Seq::<(Seq<char>, Seq<FieldV>)>::empty(),
    };
    let e2 = match d.device_id {
        Some(x) => seq![("DeviceID"@, device_id_fields(x))],
        None => Seq::<(Seq<char>, Seq<FieldV>)>::empty(),
    };
    let e3 = match d.connection_parameters {
        Some(x) => seq![("ConnectionParameters"@, connection_parameters_fields(x))],
        None => Seq::<(Seq<char>, Seq<FieldV>)>::empty(),
    };
    let e4 = match d.link_key {
        Some(x) => seq![("LinkKey"@, link_key_fields(x))],
        None => Seq::<(Seq<char>, Seq<FieldV>)>::empty(),
    };
    let e5 = match d.identity_resolving_key {
        Some(x) => seq![("IdentityResolvingKey"@, single_key_fields(x))],
        None => Seq::<(Seq<char>, Seq<FieldV>)>::empty(),
    };
    let e6 = match d.slave_long_term_key {
        Some(x) => seq![("SlaveLongTermKey"@, ltk_section_fields(x))],
        None => Seq::<(Seq<char>, Seq<FieldV>)>::empty(),
    };
    let e7 = match d.peripheral_long_term_key {
        Some(x) => seq![("PeripheralLongTermKey"@, ltk_section_fields(x))],
        None => Seq::<(Seq<char>, Seq<FieldV>)>::empty(),
    };
    let e8 = match d.local_signature_key {
        Some(x) => seq![("LocalSignatureKey"@, single_key_fields(x))],
        None => Seq::<(Seq<char>, Seq<FieldV>)>::empty(),
    };
    let e9 = match d.long_term_key {
        Some(x) => seq![("LongTermKey"@, ltk_section_fields(x))],
        None => Seq::<(Seq<char>, Seq<FieldV>)>::empty(),
    };
    lemma_sections_text_append(e1 + e2 + e3 + e4 + e5 + e6 + e7 + e8, e9);
    lemma_sections_text_append(e1 + e2 + e3 + e4 + e5 + e6 + e7, e8);
    lemma_sections_text_append(e1 + e2 + e3 + e4 + e5 + e6, e7);
    lemma_sections_text_append(e1 + e2 + e3 + e4 + e5, e6);
    lemma_sections_text_append(e1 + e2 + e3 + e4, e5);
    lemma_sections_text_append(e1 + e2 + e3, e4);
    lemma_sections_text_append(e1 + e2, e3);
    lemma_sections_text_append(e1, e2);
    match d.general {
        Some(g) => {
            lemma_sections_text_one("General"@, general_fields(g));
            lemma_general_text_entry(g);
        },
        None => {},
    }
    match d.device_id {
        Some(x) => {
            lemma_sections_text_one("DeviceID"@, device_id_fields(x));
            lemma_device_id_text_entry(x);
        },
        None => {},
    }
    match d.connection_parameters {
        Some(x) => {
            lemma_sections_text_one("ConnectionParameters"@, connection_parameters_fields(x));
            lemma_connection_parameters_text_entry(x);
        },
        None => {},
    }
    match d.link_key {
        Some(x) => {
            lemma_sections_text_one("LinkKey"@, link_key_fields(x));
            lemma_link_key_text_entry(x);
        },
        None => {},
    }
    match d.identity_resolving_key {
        Some(x) => {
            lemma_sections_text_one("IdentityResolvingKey"@, single_key_fields(x));
            lemma_single_key_text_entry("IdentityResolvingKey"@, x);
        },
        None => {},
    }
    match d.slave_long_term_key {
        Some(x) => {
            lemma_sections_text_one("SlaveLongTermKey"@, ltk_section_fields(x));
            lemma_ltk_section_text_entry("SlaveLongTermKey"@, x);
        },
        None => {},
    }
    match d.peripheral_long_term_key {
        Some(x) => {
            lemma_sections_text_one("PeripheralLongTermKey"@, ltk_section_fields(x));
            lemma_ltk_section_text_entry("PeripheralLongTermKey"@, x);
        },
        None => {},
    }
    match d.local_signature_key {
        Some(x) => {
            lemma_sections_text_one("LocalSignatureKey"@, single_key_fields(x));
            lemma_single_key_text_entry("LocalSignatureKey"@, x);
        },
        None => {},
    }
    match d.long_term_key {
        Some(x) => {
            lemma_sections_text_one("LongTermKey"@, ltk_section_fields(x));
            lemma_ltk_section_text_entry("LongTermKey"@, x);
        },
        None => {},
    }
    assert(info_text(d) =~= sections_text_of(rec_entries(d)));
}

proof fn lemma_entries_clean_append(
    a: Seq<(Seq<char>, Seq<FieldV>)>,
    b: Seq<(Seq<char>, Seq<FieldV>)>,
)
    requires
        entries_clean(a),
        entries_clean(b),
    ensures
        entries_clean(a + b),
{
    assert forall|i: int| 0 <= i < (a + b).len() implies header_name_ok(#[trigger] (a + b)[i].0)
        && fields_clean((a + b)[i].1) by {
        if i < a.len() {
            assert((a + b)[i] == a[i]);
            assert(header_name_ok(a[i].0) && fields_clean(a[i].1));
        } else {
            assert((a + b)[i] == b[i - a.len()]);
            assert(header_name_ok(b[i - a.len()].0) && fields_clean(b[i - a.len()].1));
        }
    }
}

proof fn lemma_rec_entries_clean(d: BtDeviceV)
    requires
        record_clean(d),
    ensures
        entries_clean(rec_entries(d)),
{
    lemma_literal_names();
    let e1 = match d.general {
        Some(g) => seq![("General"@, general_fields(g))],
        None => Seq::<(Seq<char>, Seq<FieldV>)>::empty(),
    };
    let e2 = match d.device_id {
        Some(x) => seq![("DeviceID"@, device_id_fields(x))],
        None => Seq::<(Seq<char>, Seq<FieldV>)>::empty(),
    };
    let e3 = match d.connection_parameters {
        Some(x) => seq![("ConnectionParameters"@, connection_parameters_fields(x))],
        None => Seq::<(Seq<char>, Seq<FieldV>)>::empty(),
    };
    let e4 = match d.link_key {
        Some(x) => seq![("LinkKey"@, link_key_fields(x))],
        None => Seq::<(Seq<char>, Seq<FieldV>)>::empty(),
    };
    let e5 = match d.identity_resolving_key {
        Some(x) => seq![("IdentityResolvingKey"@, single_key_fields(x))],
        None => Seq::<(Seq<char>, Seq<FieldV>)>::empty(),
    };
    let e6 = match d.slave_long_term_key {
        Some(x) => seq![("SlaveLongTermKey"@, ltk_section_fields(x))],
        None => Seq::<(Seq<char>, Seq<FieldV>)>::empty(),
    };
    let e7 = match d.peripheral_long_term_key {
        Some(x) => seq![("PeripheralLongTermKey"@, ltk_section_fields(x))],
        None => Seq::<(Seq<char>, Seq<FieldV>)>::empty(),
    };
    let e8 = match d.local_signature_key {
        Some(x) => seq![("LocalSignatureKey"@, single_key_fields(x))],
        None => Seq::<(Seq<char>, Seq<FieldV>)>::empty(),
    };
    let e9 = match d.long_term_key {
        Some(x) => seq![("LongTermKey"@, ltk_section_fields(x))],
        None => Seq::<(Seq<char>, Seq<FieldV>)>::empty(),
    };
    match d.general {
        Some(g) => {
            lemma_general_fields_clean(g);
        },
        None => {},
    }
    match d.device_id {
        Some(x) => {
            lemma_device_id_fields_clean(x);
        },
        None => {},
    }
    match d.connection_parameters {
        Some(x) => {
            lemma_connection_parameters_fields_clean(x);
        },
        None => {},
    }
    match d.link_key {
        Some(x) => {
            lemma_link_key_fields_clean(x);
        },
        None => {},
    }
    match d.identity_resolving_key {
        Some(x) => {
            lemma_single_key_fields_clean(x);
        },
        None => {},
    }
    match d.slave_long_term_key {
        Some(x) => {
            lemma_ltk_section_fields_clean(x);
        },
        None => {},
    }
    match d.peripheral_long_term_key {
        Some(x) => {
            lemma_ltk_section_fields_clean(x);
        },
        None => {},
    }
    match d.local_signature_key {
        Some(x) => {
            lemma_single_key_fields_clean(x);
        },
        None => {},
    }
    match d.long_term_key {
        Some(x) => {
            lemma_ltk_section_fields_clean(x);
        },
        None => {},
    }
    assert(entries_clean(e1));
    assert(entries_clean(e2));
    assert(entries_clean(e3));
    assert(entries_clean(e4));
    assert(entries_clean(e5));
    assert(entries_clean(e6));
    assert(entries_clean(e7));
    assert(entries_clean(e8));
    assert(entries_clean(e9));
    lemma_entries_clean_append(e1, e2);
    lemma_entries_clean_append(e1 + e2, e3);
    lemma_entries_clean_append(e1 + e2 + e3, e4);
    lemma_entries_clean_append(e1 + e2 + e3 + e4, e5);
    lemma_entries_clean_append(e1 + e2 + e3 + e4 + e5, e6);
    lemma_entries_clean_append(e1 + e2 + e3 + e4 + e5 + e6, e7);
    lemma_entries_clean_append(e1 + e2 + e3 + e4 + e5 + e6 + e7, e8);
    lemma_entries_clean_append(e1 + e2 + e3 + e4 + e5 + e6 + e7 + e8, e9);
    assert(entries_clean(rec_entries(d))) by {
        assert(rec_entries(d) =~= e1 + e2 + e3 + e4 + e5 + e6 + e7 + e8 + e9);
    }
}


/// Mapping a run of emitted sections to views distributes over
/// concatenation.
proof fn lemma_secs_of_append(a: Seq<(Seq<char>, Seq<FieldV>)>, b: Seq<(Seq<char>, Seq<FieldV>)>)
    ensures
        secs_of(a + b) == secs_of(a) + secs_of(b),
{
    assert(secs_of(a + b) =~= secs_of(a) + secs_of(b));
}


/// The sections the General slot of a record contributes.
#[verifier::opaque]
pub open spec fn slot1(d: BtDeviceV) -> Seq<SectionV> {
    match d.general {
        Some(g) => seq![SectionV { name: "General"@, fields: general_fields(g) }],
        None => Seq::empty(),
    }
}

/// The sections the DeviceID slot contributes.
#[verifier::opaque]
pub open spec fn slot2(d: BtDeviceV) -> Seq<SectionV> {
    match d.device_id {
        Some(x) => seq![SectionV { name: "DeviceID"@, fields: device_id_fields(x) }],
        None => Seq::empty(),
    }
}

/// The sections the ConnectionParameters slot contributes.
#[verifier::opaque]
pub open spec fn slot3(d: BtDeviceV) -> Seq<SectionV> {
    match d.connection_parameters {
        Some(x) => seq![
            SectionV { name: "ConnectionParameters"@, fields: connection_parameters_fields(x) },
        ],
        None => Seq::empty(),
    }
}

/// The sections the LinkKey slot contributes.
#[verifier::opaque]
pub open spec fn slot4(d: BtDeviceV) -> Seq<SectionV> {
    match d.link_key {
        Some(x) => seq![SectionV { name: "LinkKey"@, fields: link_key_fields(x) }],
        None => Seq::empty(),
    }
}

/// The sections the IdentityResolvingKey slot contributes.
#[verifier::opaque]
pub open spec fn slot5(d: BtDeviceV) -> Seq<SectionV> {
    match d.identity_resolving_key {
        Some(x) => seq![SectionV { name: "IdentityResolvingKey"@, fields: single_key_fields(x) }],
        None => Seq::empty(),
    }
}

/// The sections the SlaveLongTermKey slot contributes.
#[verifier::opaque]
pub open spec fn slot6(d: BtDeviceV) -> Seq<SectionV> {
    match d.slave_long_term_key {
        Some(x) => seq![SectionV { name: "SlaveLongTermKey"@, fields: ltk_section_fields(x) }],
        None => Seq::empty(),
    }
}

/// The sections the PeripheralLongTermKey slot contributes.
#[verifier::opaque]
pub open spec fn slot7(d: BtDeviceV) -> Seq<SectionV> {
    match d.peripheral_long_term_key {
        Some(x) => seq![
            SectionV { name: "PeripheralLongTermKey"@, fields: ltk_section_fields(x) },
        ],
        None => Seq::empty(),
    }
}

/// The sections the LocalSignatureKey slot contributes.
#[verifier::opaque]
pub open spec fn slot8(d: BtDeviceV) -> Seq<SectionV> {
    match d.local_signature_key {
        Some(x) => seq![SectionV { name: "LocalSignatureKey"@, fields: single_key_fields(x) }],
        None => Seq::empty(),
    }
}

/// The sections the LongTermKey slot contributes.
#[verifier::opaque]
pub open spec fn slot9(d: BtDeviceV) -> Seq<SectionV> {
    match d.long_term_key {
        Some(x) => seq![SectionV { name: "LongTermKey"@, fields: ltk_section_fields(x) }],
        None => Seq::empty(),
    }
}

/// The parsed sections of a record's text are exactly its slots, in order.
#[verifier::rlimit(100)]
proof fn lemma_slots(d: BtDeviceV)
    ensures
        secs_of(rec_entries(d)) == slot1(d) + slot2(d) + slot3(d) + slot4(d) + slot5(d) + slot6(d)
            + slot7(d) + slot8(d) + slot9(d),
{
    reveal(slot1);
    reveal(slot2);
    reveal(slot3);
    reveal(slot4);
    reveal(slot5);
    reveal(slot6);
    reveal(slot7);
    reveal(slot8);
    reveal(slot9);
    let e1 = match d.general {
        Some(g) => seq![("General"@, general_fields(g))],
        None => Seq::<(Seq<char>, Seq<FieldV>)>::empty(),
    };
    let e2 = match d.device_id {
        Some(x) => seq![("DeviceID"@, device_id_fields(x))],
        None => Seq::<(Seq<char>, Seq<FieldV>)>::empty(),
    };
    let e3 = match d.connection_parameters {
        Some(x) => seq![("ConnectionParameters"@, connection_parameters_fields(x))],
        None => Seq::<(Seq<char>, Seq<FieldV>)>::empty(),
    };
    let e4 = match d.link_key {
        Some(x) => seq![("LinkKey"@, link_key_fields(x))],
        None => Seq::<(Seq<char>, Seq<FieldV>)>::empty(),
    };
    let e5 = match d.identity_resolving_key {
        Some(x) => seq![("IdentityResolvingKey"@, single_key_fields(x))],
        None => Seq::<(Seq<char>, Seq<FieldV>)>::empty(),
    };
    let e6 = match d.slave_long_term_key {
        Some(x) => seq![("SlaveLongTermKey"@, ltk_section_fields(x))],
        None => Seq::<(Seq<char>, Seq<FieldV>)>::empty(),
    };
    let e7 = match d.peripheral_long_term_key {
        Some(x) => seq![("PeripheralLongTermKey"@, ltk_section_fields(x))],
        None => Seq::<(Seq<char>, Seq<FieldV>)>::empty(),
    };
    let e8 = match d.local_signature_key {
        Some(x) => seq![("LocalSignatureKey"@, single_key_fields(x))],
        None => Seq::<(Seq<char>, Seq<FieldV>)>::empty(),
    };
    let e9 = match d.long_term_key {
        Some(x) => seq![("LongTermKey"@, ltk_section_fields(x))],
        None => Seq::<(Seq<char>, Seq<FieldV>)>::empty(),
    };
    assert(rec_entries(d) =~= e1 + e2 + e3 + e4 + e5 + e6 + e7 + e8 + e9);
    lemma_secs_of_append(e1 + e2 + e3 + e4 + e5 + e6 + e7 + e8, e9);
    lemma_secs_of_append(e1 + e2 + e3 + e4 + e5 + e6 + e7, e8);
    lemma_secs_of_append(e1 + e2 + e3 + e4 + e5 + e6, e7);
    lemma_secs_of_append(e1 + e2 + e3 + e4 + e5, e6);
    lemma_secs_of_append(e1 + e2 + e3 + e4, e5);
    lemma_secs_of_append(e1 + e2 + e3, e4);
    lemma_secs_of_append(e1 + e2, e3);
    lemma_secs_of_append(e1, e2);
    assert(secs_of(e1) =~= slot1(d));
    assert(secs_of(e2) =~= slot2(d));
    assert(secs_of(e3) =~= slot3(d));
    assert(secs_of(e4) =~= slot4(d));
    assert(secs_of(e5) =~= slot5(d));
    assert(secs_of(e6) =~= slot6(d));
    assert(secs_of(e7) =~= slot7(d));
    assert(secs_of(e8) =~= slot8(d));
    assert(secs_of(e9) =~= slot9(d));
}

/// Every slot's sections bear that slot's name.
proof fn lemma_slot_names(d: BtDeviceV)
    ensures
        forall|j: int| 0 <= j < slot1(d).len() ==> (#[trigger] slot1(d)[j].name) == "General"@,
        forall|j: int| 0 <= j < slot2(d).len() ==> (#[trigger] slot2(d)[j].name) == "DeviceID"@,
        forall|j: int|
            0 <= j < slot3(d).len() ==> (#[trigger] slot3(d)[j].name) == "ConnectionParameters"@,
        forall|j: int| 0 <= j < slot4(d).len() ==> (#[trigger] slot4(d)[j].name) == "LinkKey"@,
        forall|j: int|
            0 <= j < slot5(d).len() ==> (#[trigger] slot5(d)[j].name) == "IdentityResolvingKey"@,
        forall|j: int|
            0 <= j < slot6(d).len() ==> (#[trigger] slot6(d)[j].name) == "SlaveLongTermKey"@,
        forall|j: int|
            0 <= j < slot7(d).len() ==> (#[trigger] slot7(d)[j].name)
                == "PeripheralLongTermKey"@,
        forall|j: int|
            0 <= j < slot8(d).len() ==> (#[trigger] slot8(d)[j].name) == "LocalSignatureKey"@,
        forall|j: int| 0 <= j < slot9(d).len() ==> (#[trigger] slot9(d)[j].name) == "LongTermKey"@,
{
    reveal(slot1);
    reveal(slot2);
    reveal(slot3);
    reveal(slot4);
    reveal(slot5);
    reveal(slot6);
    reveal(slot7);
    reveal(slot8);
    reveal(slot9);
}

/// The nine section names are pairwise distinct.
proof fn lemma_section_names_distinct()
    ensures
        "General"@ != "DeviceID"@ && "General"@ != "ConnectionParameters"@ && "General"@
            != "LinkKey"@ && "General"@ != "IdentityResolvingKey"@ && "General"@
            != "SlaveLongTermKey"@ && "General"@ != "PeripheralLongTermKey"@ && "General"@
            != "LocalSignatureKey"@ && "General"@ != "LongTermKey"@,
        "DeviceID"@ != "ConnectionParameters"@ && "DeviceID"@ != "LinkKey"@ && "DeviceID"@
            != "IdentityResolvingKey"@ && "DeviceID"@ != "SlaveLongTermKey"@ && "DeviceID"@
            != "PeripheralLongTermKey"@ && "DeviceID"@ != "LocalSignatureKey"@ && "DeviceID"@
            != "LongTermKey"@,
        "ConnectionParameters"@ != "LinkKey"@ && "ConnectionParameters"@
            != "IdentityResolvingKey"@ && "ConnectionParameters"@ != "SlaveLongTermKey"@
            && "ConnectionParameters"@ != "PeripheralLongTermKey"@ && "ConnectionParameters"@
            != "LocalSignatureKey"@ && "ConnectionParameters"@ != "LongTermKey"@,
        "LinkKey"@ != "IdentityResolvingKey"@ && "LinkKey"@ != "SlaveLongTermKey"@ && "LinkKey"@
            != "PeripheralLongTermKey"@ && "LinkKey"@ != "LocalSignatureKey"@ && "LinkKey"@
            != "LongTermKey"@,
        "IdentityResolvingKey"@ != "SlaveLongTermKey"@ && "IdentityResolvingKey"@
            != "PeripheralLongTermKey"@ && "IdentityResolvingKey"@ != "LocalSignatureKey"@
            && "IdentityResolvingKey"@ != "LongTermKey"@,
        "SlaveLongTermKey"@ != "PeripheralLongTermKey"@ && "SlaveLongTermKey"@
            != "LocalSignatureKey"@ && "SlaveLongTermKey"@ != "LongTermKey"@,
        "PeripheralLongTermKey"@ != "LocalSignatureKey"@ && "PeripheralLongTermKey"@
            != "LongTermKey"@,
        "LocalSignatureKey"@ != "LongTermKey"@,
{
    reveal_strlit("General");
    reveal_strlit("DeviceID");
    reveal_strlit("ConnectionParameters");
    reveal_strlit("LinkKey");
    reveal_strlit("IdentityResolvingKey");
    reveal_strlit("SlaveLongTermKey");
    reveal_strlit("PeripheralLongTermKey");
    reveal_strlit("LocalSignatureKey");
    reveal_strlit("LongTermKey");
    assert("General"@[0] == 'G');
    assert("DeviceID"@[0] == 'D');
    assert("ConnectionParameters"@[0] == 'C');
    assert("LinkKey"@[0] == 'L' && "LinkKey"@[1] == 'i');
    assert("IdentityResolvingKey"@[0] == 'I');
    assert("SlaveLongTermKey"@[0] == 'S');
    assert("PeripheralLongTermKey"@[0] == 'P');
    assert("LocalSignatureKey"@[0] == 'L' && "LocalSignatureKey"@[1] == 'o'
        && "LocalSignatureKey"@[2] == 'c');
    assert("LongTermKey"@[0] == 'L' && "LongTermKey"@[1] == 'o' && "LongTermKey"@[2] == 'n');
}

/// Where the General section lands in the parsed run of a record's text.
#[verifier::rlimit(100)]
#[verifier::spinoff_prover]
proof fn lemma_find_slot_general(d: BtDeviceV)
    ensures
        find_section(secs_of(rec_entries(d)), "General"@) == (match d.general {
            Some(x) => Some(SectionV { name: "General"@, fields: general_fields(x) }),
            None => None::<SectionV>,
        }),
{
    lemma_slots(d);
    lemma_slot_names(d);
    lemma_section_names_distinct();
    let big = secs_of(rec_entries(d));
    let s1 = slot1(d);
    let s2 = slot2(d);
    let s3 = slot3(d);
    let s4 = slot4(d);
    let s5 = slot5(d);
    let s6 = slot6(d);
    let s7 = slot7(d);
    let s8 = slot8(d);
    let s9 = slot9(d);
    match d.general {
        Some(x) => {
            let sec = SectionV { name: "General"@, fields: general_fields(x) };
            assert(slot1(d) =~= seq![sec]) by {
                reveal(slot1);
            }
            let idx = 0int;
            assert(big[idx] == sec);

            lemma_find_section_from(big, "General"@, idx);
            assert(big.skip(idx)[0] == sec);
            assert(find_section(big.skip(idx), "General"@) == Some(sec));
        },
        None => {
            assert(slot1(d).len() == 0) by {
                reveal(slot1);
            }
            assert forall|j: int| 0 <= j < big.len() implies (#[trigger] big[j].name)
                != "General"@ by {
                if j < s1.len() {
                    assert(big[j] == s1[j - (0)]);
                }
                else if j < s1.len() + s2.len() {
                    assert(big[j] == s2[j - (s1.len())]);
                }
                else if j < s1.len() + s2.len() + s3.len() {
                    assert(big[j] == s3[j - (s1.len() + s2.len())]);
                }
                else if j < s1.len() + s2.len() + s3.len() + s4.len() {
                    assert(big[j] == s4[j - (s1.len() + s2.len() + s3.len())]);
                }
                else if j < s1.len() + s2.len() + s3.len() + s4.len() + s5.len() {
                    assert(big[j] == s5[j - (s1.len() + s2.len() + s3.len() + s4.len())]);
                }
                else if j < s1.len() + s2.len() + s3.len() + s4.len() + s5.len() + s6.len() {
                    assert(big[j] == s6[j - (s1.len() + s2.len() + s3.len() + s4.len() + s5.len())]);
                }
                else if j < s1.len() + s2.len() + s3.len() + s4.len() + s5.len() + s6.len() + s7.len() {
                    assert(big[j] == s7[j - (s1.len() + s2.len() + s3.len() + s4.len() + s5.len() + s6.len())]);
                }
                else if j < s1.len() + s2.len() + s3.len() + s4.len() + s5.len() + s6.len() + s7.len() + s8.len() {
                    assert(big[j] == s8[j - (s1.len() + s2.len() + s3.len() + s4.len() + s5.len() + s6.len() + s7.len())]);
                }
                else if j < s1.len() + s2.len() + s3.len() + s4.len() + s5.len() + s6.len() + s7.len() + s8.len() + s9.len() {
                    assert(big[j] == s9[j - (s1.len() + s2.len() + s3.len() + s4.len() + s5.len() + s6.len() + s7.len() + s8.len())]);
                }
            }
            lemma_find_section_none(big, "General"@);
        },
    }
}

/// Where the DeviceID section lands in the parsed run of a record's text.
#[verifier::rlimit(100)]
#[verifier::spinoff_prover]
proof fn lemma_find_slot_device_id(d: BtDeviceV)
    ensures
        find_section(secs_of(rec_entries(d)), "DeviceID"@) == (match d.device_id {
            Some(x) => Some(SectionV { name: "DeviceID"@, fields: device_id_fields(x) }),
            None => None::<SectionV>,
        }),
{
    lemma_slots(d);
    lemma_slot_names(d);
    lemma_section_names_distinct();
    let big = secs_of(rec_entries(d));
    let s1 = slot1(d);
    let s2 = slot2(d);
    let s3 = slot3(d);
    let s4 = slot4(d);
    let s5 = slot5(d);
    let s6 = slot6(d);
    let s7 = slot7(d);
    let s8 = slot8(d);
    let s9 = slot9(d);
    match d.device_id {
        Some(x) => {
            let sec = SectionV { name: "DeviceID"@, fields: device_id_fields(x) };
            assert(slot2(d) =~= seq![sec]) by {
                reveal(slot2);
            }
            let idx = (s1.len()) as int;
            assert(big[idx] == sec);
            assert forall|j: int| 0 <= j < idx implies (#[trigger] big[j].name) != "DeviceID"@ by {
                if j < s1.len() {
                    assert(big[j] == s1[j - (0)]);
                }
            }
            lemma_find_section_from(big, "DeviceID"@, idx);
            assert(big.skip(idx)[0] == sec);
            assert(find_section(big.skip(idx), "DeviceID"@) == Some(sec));
        },
        None => {
            assert(slot2(d).len() == 0) by {
                reveal(slot2);
            }
            assert forall|j: int| 0 <= j < big.len() implies (#[trigger] big[j].name)
                != "DeviceID"@ by {
                if j < s1.len() {
                    assert(big[j] == s1[j - (0)]);
                }
                else if j < s1.len() + s2.len() {
                    assert(big[j] == s2[j - (s1.len())]);
                }
                else if j < s1.len() + s2.len() + s3.len() {
                    assert(big[j] == s3[j - (s1.len() + s2.len())]);
                }
                else if j < s1.len() + s2.len() + s3.len() + s4.len() {
                    assert(big[j] == s4[j - (s1.len() + s2.len() + s3.len())]);
                }
                else if j < s1.len() + s2.len() + s3.len() + s4.len() + s5.len() {
                    assert(big[j] == s5[j - (s1.len() + s2.len() + s3.len() + s4.len())]);
                }
                else if j < s1.len() + s2.len() + s3.len() + s4.len() + s5.len() + s6.len() {
                    assert(big[j] == s6[j - (s1.len() + s2.len() + s3.len() + s4.len() + s5.len())]);
                }
                else if j < s1.len() + s2.len() + s3.len() + s4.len() + s5.len() + s6.len() + s7.len() {
                    assert(big[j] == s7[j - (s1.len() + s2.len() + s3.len() + s4.len() + s5.len() + s6.len())]);
                }
                else if j < s1.len() + s2.len() + s3.len() + s4.len() + s5.len() + s6.len() + s7.len() + s8.len() {
                    assert(big[j] == s8[j - (s1.len() + s2.len() + s3.len() + s4.len() + s5.len() + s6.len() + s7.len())]);
                }
                else if j < s1.len() + s2.len() + s3.len() + s4.len() + s5.len() + s6.len() + s7.len() + s8.len() + s9.len() {
                    assert(big[j] == s9[j - (s1.len() + s2.len() + s3.len() + s4.len() + s5.len() + s6.len() + s7.len() + s8.len())]);
                }
            }
            lemma_find_section_none(big, "DeviceID"@);
        },
    }
}

/// Where the ConnectionParameters section lands in the parsed run of a record's text.
#[verifier::rlimit(100)]
#[verifier::spinoff_prover]
proof fn lemma_find_slot_connection_parameters(d: BtDeviceV)
    ensures
        find_section(secs_of(rec_entries(d)), "ConnectionParameters"@) == (match d.connection_parameters {
            Some(x) => Some(SectionV { name: "ConnectionParameters"@, fields: connection_parameters_fields(x) }),
            None => None::<SectionV>,
        }),
{
    lemma_slots(d);
    lemma_slot_names(d);
    lemma_section_names_distinct();
    let big = secs_of(rec_entries(d));
    let s1 = slot1(d);
    let s2 = slot2(d);
    let s3 = slot3(d);
    let s4 = slot4(d);
    let s5 = slot5(d);
    let s6 = slot6(d);
    let s7 = slot7(d);
    let s8 = slot8(d);
    let s9 = slot9(d);
    match d.connection_parameters {
        Some(x) => {
            let sec = SectionV { name: "ConnectionParameters"@, fields: connection_parameters_fields(x) };
            assert(slot3(d) =~= seq![sec]) by {
                reveal(slot3);
            }
            let idx = (s1.len() + s2.len()) as int;
            assert(big[idx] == sec);
            assert forall|j: int| 0 <= j < idx implies (#[trigger] big[j].name) != "ConnectionParameters"@ by {
                if j < s1.len() {
                    assert(big[j] == s1[j - (0)]);
                }
                else if j < s1.len() + s2.len() {
                    assert(big[j] == s2[j - (s1.len())]);
                }
            }
            lemma_find_section_from(big, "ConnectionParameters"@, idx);
            assert(big.skip(idx)[0] == sec);
            assert(find_section(big.skip(idx), "ConnectionParameters"@) == Some(sec));
        },
        None => {
            assert(slot3(d).len() == 0) by {
                reveal(slot3);
            }
            assert forall|j: int| 0 <= j < big.len() implies (#[trigger] big[j].name)
                != "ConnectionParameters"@ by {
                if j < s1.len() {
                    assert(big[j] == s1[j - (0)]);
                }
                else if j < s1.len() + s2.len() {
                    assert(big[j] == s2[j - (s1.len())]);
                }
                else if j < s1.len() + s2.len() + s3.len() {
                    assert(big[j] == s3[j - (s1.len() + s2.len())]);
                }
                else if j < s1.len() + s2.len() + s3.len() + s4.len() {
                    assert(big[j] == s4[j - (s1.len() + s2.len() + s3.len())]);
                }
                else if j < s1.len() + s2.len() + s3.len() + s4.len() + s5.len() {
                    assert(big[j] == s5[j - (s1.len() + s2.len() + s3.len() + s4.len())]);
                }
                else if j < s1.len() + s2.len() + s3.len() + s4.len() + s5.len() + s6.len() {
                    assert(big[j] == s6[j - (s1.len() + s2.len() + s3.len() + s4.len() + s5.len())]);
                }
                else if j < s1.len() + s2.len() + s3.len() + s4.len() + s5.len() + s6.len() + s7.len() {
                    assert(big[j] == s7[j - (s1.len() + s2.len() + s3.len() + s4.len() + s5.len() + s6.len())]);
                }
                else if j < s1.len() + s2.len() + s3.len() + s4.len() + s5.len() + s6.len() + s7.len() + s8.len() {
                    assert(big[j] == s8[j - (s1.len() + s2.len() + s3.len() + s4.len() + s5.len() + s6.len() + s7.len())]);
                }
                else if j < s1.len() + s2.len() + s3.len() + s4.len() + s5.len() + s6.len() + s7.len() + s8.len() + s9.len() {
                    assert(big[j] == s9[j - (s1.len() + s2.len() + s3.len() + s4.len() + s5.len() + s6.len() + s7.len() + s8.len())]);
                }
            }
            lemma_find_section_none(big, "ConnectionParameters"@);
        },
    }
}

/// Where the LinkKey section lands in the parsed run of a record's text.
#[verifier::rlimit(100)]
#[verifier::spinoff_prover]
proof fn lemma_find_slot_link_key(d: BtDeviceV)
    ensures
        find_section(secs_of(rec_entries(d)), "LinkKey"@) == (match d.link_key {
            Some(x) => Some(SectionV { name: "LinkKey"@, fields: link_key_fields(x) }),
            None => None::<SectionV>,
        }),
{
    lemma_slots(d);
    lemma_slot_names(d);
    lemma_section_names_distinct();
    let big = secs_of(rec_entries(d));
    let s1 = slot1(d);
    let s2 = slot2(d);
    let s3 = slot3(d);
    let s4 = slot4(d);
    let s5 = slot5(d);
    let s6 = slot6(d);
    let s7 = slot7(d);
    let s8 = slot8(d);
    let s9 = slot9(d);
    match d.link_key {
        Some(x) => {
            let sec = SectionV { name: "LinkKey"@, fields: link_key_fields(x) };
            assert(slot4(d) =~= seq![sec]) by {
                reveal(slot4);
            }
            let idx = (s1.len() + s2.len() + s3.len()) as int;
            assert(big[idx] == sec);
            assert forall|j: int| 0 <= j < idx implies (#[trigger] big[j].name) != "LinkKey"@ by {
                if j < s1.len() {
                    assert(big[j] == s1[j - (0)]);
                }
                else if j < s1.len() + s2.len() {
                    assert(big[j] == s2[j - (s1.len())]);
                }
                else if j < s1.len() + s2.len() + s3.len() {
                    assert(big[j] == s3[j - (s1.len() + s2.len())]);
                }
            }
            lemma_find_section_from(big, "LinkKey"@, idx);
            assert(big.skip(idx)[0] == sec);
            assert(find_section(big.skip(idx), "LinkKey"@) == Some(sec));
        },
        None => {
            assert(slot4(d).len() == 0) by {
                reveal(slot4);
            }
            assert forall|j: int| 0 <= j < big.len() implies (#[trigger] big[j].name)
                != "LinkKey"@ by {
                if j < s1.len() {
                    assert(big[j] == s1[j - (0)]);
                }
                else if j < s1.len() + s2.len() {
                    assert(big[j] == s2[j - (s1.len())]);
                }
                else if j < s1.len() + s2.len() + s3.len() {
                    assert(big[j] == s3[j - (s1.len() + s2.len())]);
                }
                else if j < s1.len() + s2.len() + s3.len() + s4.len() {
                    assert(big[j] == s4[j - (s1.len() + s2.len() + s3.len())]);
                }
                else if j < s1.len() + s2.len() + s3.len() + s4.len() + s5.len() {
                    assert(big[j] == s5[j - (s1.len() + s2.len() + s3.len() + s4.len())]);
                }
                else if j < s1.len() + s2.len() + s3.len() + s4.len() + s5.len() + s6.len() {
                    assert(big[j] == s6[j - (s1.len() + s2.len() + s3.len() + s4.len() + s5.len())]);
                }
                else if j < s1.len() + s2.len() + s3.len() + s4.len() + s5.len() + s6.len() + s7.len() {
                    assert(big[j] == s7[j - (s1.len() + s2.len() + s3.len() + s4.len() + s5.len() + s6.len())]);
                }
                else if j < s1.len() + s2.len() + s3.len() + s4.len() + s5.len() + s6.len() + s7.len() + s8.len() {
                    assert(big[j] == s8[j - (s1.len() + s2.len() + s3.len() + s4.len() + s5.len() + s6.len() + s7.len())]);
                }
                else if j < s1.len() + s2.len() + s3.len() + s4.len() + s5.len() + s6.len() + s7.len() + s8.len() + s9.len() {
                    assert(big[j] == s9[j - (s1.len() + s2.len() + s3.len() + s4.len() + s5.len() + s6.len() + s7.len() + s8.len())]);
                }
            }
            lemma_find_section_none(big, "LinkKey"@);
        },
    }
}

/// Where the IdentityResolvingKey section lands in the parsed run of a record's text.
#[verifier::rlimit(100)]
#[verifier::spinoff_prover]
proof fn lemma_find_slot_identity_resolving_key(d: BtDeviceV)
    ensures
        find_section(secs_of(rec_entries(d)), "IdentityResolvingKey"@) == (match d.identity_resolving_key {
            Some(x) => Some(SectionV { name: "IdentityResolvingKey"@, fields: single_key_fields(x) }),
            None => None::<SectionV>,
        }),
{
    lemma_slots(d);
    lemma_slot_names(d);
    lemma_section_names_distinct();
    let big = secs_of(rec_entries(d));
    let s1 = slot1(d);
    let s2 = slot2(d);
    let s3 = slot3(d);
    let s4 = slot4(d);
    let s5 = slot5(d);
    let s6 = slot6(d);
    let s7 = slot7(d);
    let s8 = slot8(d);
    let s9 = slot9(d);
    match d.identity_resolving_key {
        Some(x) => {
            let sec = SectionV { name: "IdentityResolvingKey"@, fields: single_key_fields(x) };
            assert(slot5(d) =~= seq![sec]) by {
                reveal(slot5);
            }
            let idx = (s1.len() + s2.len() + s3.len() + s4.len()) as int;
            assert(big[idx] == sec);
            assert forall|j: int| 0 <= j < idx implies (#[trigger] big[j].name) != "IdentityResolvingKey"@ by {
                if j < s1.len() {
                    assert(big[j] == s1[j - (0)]);
                }
                else if j < s1.len() + s2.len() {
                    assert(big[j] == s2[j - (s1.len())]);
                }
                else if j < s1.len() + s2.len() + s3.len() {
                    assert(big[j] == s3[j - (s1.len() + s2.len())]);
                }
                else if j < s1.len() + s2.len() + s3.len() + s4.len() {
                    assert(big[j] == s4[j - (s1.len() + s2.len() + s3.len())]);
                }
            }
            lemma_find_section_from(big, "IdentityResolvingKey"@, idx);
            assert(big.skip(idx)[0] == sec);
            assert(find_section(big.skip(idx), "IdentityResolvingKey"@) == Some(sec));
        },
        None => {
            assert(slot5(d).len() == 0) by {
                reveal(slot5);
            }
            assert forall|j: int| 0 <= j < big.len() implies (#[trigger] big[j].name)
                != "IdentityResolvingKey"@ by {
                if j < s1.len() {
                    assert(big[j] == s1[j - (0)]);
                }
                else if j < s1.len() + s2.len() {
                    assert(big[j] == s2[j - (s1.len())]);
                }
                else if j < s1.len() + s2.len() + s3.len() {
                    assert(big[j] == s3[j - (s1.len() + s2.len())]);
                }
                else if j < s1.len() + s2.len() + s3.len() + s4.len() {
                    assert(big[j] == s4[j - (s1.len() + s2.len() + s3.len())]);
                }
                else if j < s1.len() + s2.len() + s3.len() + s4.len() + s5.len() {
                    assert(big[j] == s5[j - (s1.len() + s2.len() + s3.len() + s4.len())]);
                }
                else if j < s1.len() + s2.len() + s3.len() + s4.len() + s5.len() + s6.len() {
                    assert(big[j] == s6[j - (s1.len() + s2.len() + s3.len() + s4.len() + s5.len())]);
                }
                else if j < s1.len() + s2.len() + s3.len() + s4.len() + s5.len() + s6.len() + s7.len() {
                    assert(big[j] == s7[j - (s1.len() + s2.len() + s3.len() + s4.len() + s5.len() + s6.len())]);
                }
                else if j < s1.len() + s2.len() + s3.len() + s4.len() + s5.len() + s6.len() + s7.len() + s8.len() {
                    assert(big[j] == s8[j - (s1.len() + s2.len() + s3.len() + s4.len() + s5.len() + s6.len() + s7.len())]);
                }
                else if j < s1.len() + s2.len() + s3.len() + s4.len() + s5.len() + s6.len() + s7.len() + s8.len() + s9.len() {
                    assert(big[j] == s9[j - (s1.len() + s2.len() + s3.len() + s4.len() + s5.len() + s6.len() + s7.len() + s8.len())]);
                }
            }
            lemma_find_section_none(big, "IdentityResolvingKey"@);
        },
    }
}

/// Where the SlaveLongTermKey section lands in the parsed run of a record's text.
#[verifier::rlimit(100)]
#[verifier::spinoff_prover]
proof fn lemma_find_slot_slave_long_term_key(d: BtDeviceV)
    ensures
        find_section(secs_of(rec_entries(d)), "SlaveLongTermKey"@) == (match d.slave_long_term_key {
            Some(x) => Some(SectionV { name: "SlaveLongTermKey"@, fields: ltk_section_fields(x) }),
            None => None::<SectionV>,
        }),
{
    lemma_slots(d);
    lemma_slot_names(d);
    lemma_section_names_distinct();
    let big = secs_of(rec_entries(d));
    let s1 = slot1(d);
    let s2 = slot2(d);
    let s3 = slot3(d);
    let s4 = slot4(d);
    let s5 = slot5(d);
    let s6 = slot6(d);
    let s7 = slot7(d);
    let s8 = slot8(d);
    let s9 = slot9(d);
    match d.slave_long_term_key {
        Some(x) => {
            let sec = SectionV { name: "SlaveLongTermKey"@, fields: ltk_section_fields(x) };
            assert(slot6(d) =~= seq![sec]) by {
                reveal(slot6);
            }
            let idx = (s1.len() + s2.len() + s3.len() + s4.len() + s5.len()) as int;
            assert(big[idx] == sec);
            assert forall|j: int| 0 <= j < idx implies (#[trigger] big[j].name) != "SlaveLongTermKey"@ by {
                if j < s1.len() {
                    assert(big[j] == s1[j - (0)]);
                }
                else if j < s1.len() + s2.len() {
                    assert(big[j] == s2[j - (s1.len())]);
                }
                else if j < s1.len() + s2.len() + s3.len() {
                    assert(big[j] == s3[j - (s1.len() + s2.len())]);
                }
                else if j < s1.len() + s2.len() + s3.len() + s4.len() {
                    assert(big[j] == s4[j - (s1.len() + s2.len() + s3.len())]);
                }
                else if j < s1.len() + s2.len() + s3.len() + s4.len() + s5.len() {
                    assert(big[j] == s5[j - (s1.len() + s2.len() + s3.len() + s4.len())]);
                }
            }
            lemma_find_section_from(big, "SlaveLongTermKey"@, idx);
            assert(big.skip(idx)[0] == sec);
            assert(find_section(big.skip(idx), "SlaveLongTermKey"@) == Some(sec));
        },
        None => {
            assert(slot6(d).len() == 0) by {
                reveal(slot6);
            }
            assert forall|j: int| 0 <= j < big.len() implies (#[trigger] big[j].name)
                != "SlaveLongTermKey"@ by {
                if j < s1.len() {
                    assert(big[j] == s1[j - (0)]);
                }
                else if j < s1.len() + s2.len() {
                    assert(big[j] == s2[j - (s1.len())]);
                }
                else if j < s1.len() + s2.len() + s3.len() {
                    assert(big[j] == s3[j - (s1.len() + s2.len())]);
                }
                else if j < s1.len() + s2.len() + s3.len() + s4.len() {
                    assert(big[j] == s4[j - (s1.len() + s2.len() + s3.len())]);
                }
                else if j < s1.len() + s2.len() + s3.len() + s4.len() + s5.len() {
                    assert(big[j] == s5[j - (s1.len() + s2.len() + s3.len() + s4.len())]);
                }
                else if j < s1.len() + s2.len() + s3.len() + s4.len() + s5.len() + s6.len() {
                    assert(big[j] == s6[j - (s1.len() + s2.len() + s3.len() + s4.len() + s5.len())]);
                }
                else if j < s1.len() + s2.len() + s3.len() + s4.len() + s5.len() + s6.len() + s7.len() {
                    assert(big[j] == s7[j - (s1.len() + s2.len() + s3.len() + s4.len() + s5.len() + s6.len())]);
                }
                else if j < s1.len() + s2.len() + s3.len() + s4.len() + s5.len() + s6.len() + s7.len() + s8.len() {
                    assert(big[j] == s8[j - (s1.len() + s2.len() + s3.len() + s4.len() + s5.len() + s6.len() + s7.len())]);
                }
                else if j < s1.len() + s2.len() + s3.len() + s4.len() + s5.len() + s6.len() + s7.len() + s8.len() + s9.len() {
                    assert(big[j] == s9[j - (s1.len() + s2.len() + s3.len() + s4.len() + s5.len() + s6.len() + s7.len() + s8.len())]);
                }
            }
            lemma_find_section_none(big, "SlaveLongTermKey"@);
        },
    }
}

/// Where the PeripheralLongTermKey section lands in the parsed run of a record's text.
#[verifier::rlimit(100)]
#[verifier::spinoff_prover]
proof fn lemma_find_slot_peripheral_long_term_key(d: BtDeviceV)
    ensures
        find_section(secs_of(rec_entries(d)), "PeripheralLongTermKey"@) == (match d.peripheral_long_term_key {
            Some(x) => Some(SectionV { name: "PeripheralLongTermKey"@, fields: ltk_section_fields(x) }),
            None => None::<SectionV>,
        }),
{
    lemma_slots(d);
    lemma_slot_names(d);
    lemma_section_names_distinct();
    let big = secs_of(rec_entries(d));
    let s1 = slot1(d);
    let s2 = slot2(d);
    let s3 = slot3(d);
    let s4 = slot4(d);
    let s5 = slot5(d);
    let s6 = slot6(d);
    let s7 = slot7(d);
    let s8 = slot8(d);
    let s9 = slot9(d);
    match d.peripheral_long_term_key {
        Some(x) => {
            let sec = SectionV { name: "PeripheralLongTermKey"@, fields: ltk_section_fields(x) };
            assert(slot7(d) =~= seq![sec]) by {
                reveal(slot7);
            }
            let idx = (s1.len() + s2.len() + s3.len() + s4.len() + s5.len() + s6.len()) as int;
            assert(big[idx] == sec);
            assert forall|j: int| 0 <= j < idx implies (#[trigger] big[j].name) != "PeripheralLongTermKey"@ by {
                if j < s1.len() {
                    assert(big[j] == s1[j - (0)]);
                }
                else if j < s1.len() + s2.len() {
                    assert(big[j] == s2[j - (s1.len())]);
                }
                else if j < s1.len() + s2.len() + s3.len() {
                    assert(big[j] == s3[j - (s1.len() + s2.len())]);
                }
                else if j < s1.len() + s2.len() + s3.len() + s4.len() {
                    assert(big[j] == s4[j - (s1.len() + s2.len() + s3.len())]);
                }
                else if j < s1.len() + s2.len() + s3.len() + s4.len() + s5.len() {
                    assert(big[j] == s5[j - (s1.len() + s2.len() + s3.len() + s4.len())]);
                }
                else if j < s1.len() + s2.len() + s3.len() + s4.len() + s5.len() + s6.len() {
                    assert(big[j] == s6[j - (s1.len() + s2.len() + s3.len() + s4.len() + s5.len())]);
                }
            }
            lemma_find_section_from(big, "PeripheralLongTermKey"@, idx);
            assert(big.skip(idx)[0] == sec);
            assert(find_section(big.skip(idx), "PeripheralLongTermKey"@) == Some(sec));
        },
        None => {
            assert(slot7(d).len() == 0) by {
                reveal(slot7);
            }
            assert forall|j: int| 0 <= j < big.len() implies (#[trigger] big[j].name)
                != "PeripheralLongTermKey"@ by {
                if j < s1.len() {
                    assert(big[j] == s1[j - (0)]);
                }
                else if j < s1.len() + s2.len() {
                    assert(big[j] == s2[j - (s1.len())]);
                }
                else if j < s1.len() + s2.len() + s3.len() {
                    assert(big[j] == s3[j - (s1.len() + s2.len())]);
                }
                else if j < s1.len() + s2.len() + s3.len() + s4.len() {
                    assert(big[j] == s4[j - (s1.len() + s2.len() + s3.len())]);
                }
                else if j < s1.len() + s2.len() + s3.len() + s4.len() + s5.len() {
                    assert(big[j] == s5[j - (s1.len() + s2.len() + s3.len() + s4.len())]);
                }
                else if j < s1.len() + s2.len() + s3.len() + s4.len() + s5.len() + s6.len() {
                    assert(big[j] == s6[j - (s1.len() + s2.len() + s3.len() + s4.len() + s5.len())]);
                }
                else if j < s1.len() + s2.len() + s3.len() + s4.len() + s5.len() + s6.len() + s7.len() {
                    assert(big[j] == s7[j - (s1.len() + s2.len() + s3.len() + s4.len() + s5.len() + s6.len())]);
                }
                else if j < s1.len() + s2.len() + s3.len() + s4.len() + s5.len() + s6.len() + s7.len() + s8.len() {
                    assert(big[j] == s8[j - (s1.len() + s2.len() + s3.len() + s4.len() + s5.len() + s6.len() + s7.len())]);
                }
                else if j < s1.len() + s2.len() + s3.len() + s4.len() + s5.len() + s6.len() + s7.len() + s8.len() + s9.len() {
                    assert(big[j] == s9[j - (s1.len() + s2.len() + s3.len() + s4.len() + s5.len() + s6.len() + s7.len() + s8.len())]);
                }
            }
            lemma_find_section_none(big, "PeripheralLongTermKey"@);
        },
    }
}

/// Where the LocalSignatureKey section lands in the parsed run of a record's text.
#[verifier::rlimit(100)]
#[verifier::spinoff_prover]
proof fn lemma_find_slot_local_signature_key(d: BtDeviceV)
    ensures
        find_section(secs_of(rec_entries(d)), "LocalSignatureKey"@) == (match d.local_signature_key {
            Some(x) => Some(SectionV { name: "LocalSignatureKey"@, fields: single_key_fields(x) }),
            None => None::<SectionV>,
        }),
{
    lemma_slots(d);
    lemma_slot_names(d);
    lemma_section_names_distinct();
    let big = secs_of(rec_entries(d));
    let s1 = slot1(d);
    let s2 = slot2(d);
    let s3 = slot3(d);
    let s4 = slot4(d);
    let s5 = slot5(d);
    let s6 = slot6(d);
    let s7 = slot7(d);
    let s8 = slot8(d);
    let s9 = slot9(d);
    match d.local_signature_key {
        Some(x) => {
            let sec = SectionV { name: "LocalSignatureKey"@, fields: single_key_fields(x) };
            assert(slot8(d) =~= seq![sec]) by {
                reveal(slot8);
            }
            let idx = (s1.len() + s2.len() + s3.len() + s4.len() + s5.len() + s6.len() + s7.len()) as int;
            assert(big[idx] == sec);
            assert forall|j: int| 0 <= j < idx implies (#[trigger] big[j].name) != "LocalSignatureKey"@ by {
                if j < s1.len() {
                    assert(big[j] == s1[j - (0)]);
                }
                else if j < s1.len() + s2.len() {
                    assert(big[j] == s2[j - (s1.len())]);
                }
                else if j < s1.len() + s2.len() + s3.len() {
                    assert(big[j] == s3[j - (s1.len() + s2.len())]);
                }
                else if j < s1.len() + s2.len() + s3.len() + s4.len() {
                    assert(big[j] == s4[j - (s1.len() + s2.len() + s3.len())]);
                }
                else if j < s1.len() + s2.len() + s3.len() + s4.len() + s5.len() {
                    assert(big[j] == s5[j - (s1.len() + s2.len() + s3.len() + s4.len())]);
                }
                else if j < s1.len() + s2.len() + s3.len() + s4.len() + s5.len() + s6.len() {
                    assert(big[j] == s6[j - (s1.len() + s2.len() + s3.len() + s4.len() + s5.len())]);
                }
                else if j < s1.len() + s2.len() + s3.len() + s4.len() + s5.len() + s6.len() + s7.len() {
                    assert(big[j] == s7[j - (s1.len() + s2.len() + s3.len() + s4.len() + s5.len() + s6.len())]);
                }
            }
            lemma_find_section_from(big, "LocalSignatureKey"@, idx);
            assert(big.skip(idx)[0] == sec);
            assert(find_section(big.skip(idx), "LocalSignatureKey"@) == Some(sec));
        },
        None => {
            assert(slot8(d).len() == 0) by {
                reveal(slot8);
            }
            assert forall|j: int| 0 <= j < big.len() implies (#[trigger] big[j].name)
                != "LocalSignatureKey"@ by {
                if j < s1.len() {
                    assert(big[j] == s1[j - (0)]);
                }
                else if j < s1.len() + s2.len() {
                    assert(big[j] == s2[j - (s1.len())]);
                }
                else if j < s1.len() + s2.len() + s3.len() {
                    assert(big[j] == s3[j - (s1.len() + s2.len())]);
                }
                else if j < s1.len() + s2.len() + s3.len() + s4.len() {
                    assert(big[j] == s4[j - (s1.len() + s2.len() + s3.len())]);
                }
                else if j < s1.len() + s2.len() + s3.len() + s4.len() + s5.len() {
                    assert(big[j] == s5[j - (s1.len() + s2.len() + s3.len() + s4.len())]);
                }
                else if j < s1.len() + s2.len() + s3.len() + s4.len() + s5.len() + s6.len() {
                    assert(big[j] == s6[j - (s1.len() + s2.len() + s3.len() + s4.len() + s5.len())]);
                }
                else if j < s1.len() + s2.len() + s3.len() + s4.len() + s5.len() + s6.len() + s7.len() {
                    assert(big[j] == s7[j - (s1.len() + s2.len() + s3.len() + s4.len() + s5.len() + s6.len())]);
                }
                else if j < s1.len() + s2.len() + s3.len() + s4.len() + s5.len() + s6.len() + s7.len() + s8.len() {
                    assert(big[j] == s8[j - (s1.len() + s2.len() + s3.len() + s4.len() + s5.len() + s6.len() + s7.len())]);
                }
                else if j < s1.len() + s2.len() + s3.len() + s4.len() + s5.len() + s6.len() + s7.len() + s8.len() + s9.len() {
                    assert(big[j] == s9[j - (s1.len() + s2.len() + s3.len() + s4.len() + s5.len() + s6.len() + s7.len() + s8.len())]);
                }
            }
            lemma_find_section_none(big, "LocalSignatureKey"@);
        },
    }
}

/// Where the LongTermKey section lands in the parsed run of a record's text.
#[verifier::rlimit(100)]
#[verifier::spinoff_prover]
proof fn lemma_find_slot_long_term_key(d: BtDeviceV)
    ensures
        find_section(secs_of(rec_entries(d)), "LongTermKey"@) == (match d.long_term_key {
            Some(x) => Some(SectionV { name: "LongTermKey"@, fields: ltk_section_fields(x) }),
            None => None::<SectionV>,
        }),
{
    lemma_slots(d);
    lemma_slot_names(d);
    lemma_section_names_distinct();
    let big = secs_of(rec_entries(d));
    let s1 = slot1(d);
    let s2 = slot2(d);
    let s3 = slot3(d);
    let s4 = slot4(d);
    let s5 = slot5(d);
    let s6 = slot6(d);
    let s7 = slot7(d);
    let s8 = slot8(d);
    let s9 = slot9(d);
    match d.long_term_key {
        Some(x) => {
            let sec = SectionV { name: "LongTermKey"@, fields: ltk_section_fields(x) };
            assert(slot9(d) =~= seq![sec]) by {
                reveal(slot9);
            }
            let idx = (s1.len() + s2.len() + s3.len() + s4.len() + s5.len() + s6.len() + s7.len() + s8.len()) as int;
            assert(big[idx] == sec);
            assert forall|j: int| 0 <= j < idx implies (#[trigger] big[j].name) != "LongTermKey"@ by {
                if j < s1.len() {
                    assert(big[j] == s1[j - (0)]);
                }
                else if j < s1.len() + s2.len() {
                    assert(big[j] == s2[j - (s1.len())]);
                }
                else if j < s1.len() + s2.len() + s3.len() {
                    assert(big[j] == s3[j - (s1.len() + s2.len())]);
                }
                else if j < s1.len() + s2.len() + s3.len() + s4.len() {
                    assert(big[j] == s4[j - (s1.len() + s2.len() + s3.len())]);
                }
                else if j < s1.len() + s2.len() + s3.len() + s4.len() + s5.len() {
                    assert(big[j] == s5[j - (s1.len() + s2.len() + s3.len() + s4.len())]);
                }
                else if j < s1.len() + s2.len() + s3.len() + s4.len() + s5.len() + s6.len() {
                    assert(big[j] == s6[j - (s1.len() + s2.len() + s3.len() + s4.len() + s5.len())]);
                }
                else if j < s1.len() + s2.len() + s3.len() + s4.len() + s5.len() + s6.len() + s7.len() {
                    assert(big[j] == s7[j - (s1.len() + s2.len() + s3.len() + s4.len() + s5.len() + s6.len())]);
                }
                else if j < s1.len() + s2.len() + s3.len() + s4.len() + s5.len() + s6.len() + s7.len() + s8.len() {
                    assert(big[j] == s8[j - (s1.len() + s2.len() + s3.len() + s4.len() + s5.len() + s6.len() + s7.len())]);
                }
            }
            lemma_find_section_from(big, "LongTermKey"@, idx);
            assert(big.skip(idx)[0] == sec);
            assert(find_section(big.skip(idx), "LongTermKey"@) == Some(sec));
        },
        None => {
            assert(slot9(d).len() == 0) by {
                reveal(slot9);
            }
            assert forall|j: int| 0 <= j < big.len() implies (#[trigger] big[j].name)
                != "LongTermKey"@ by {
                if j < s1.len() {
                    assert(big[j] == s1[j - (0)]);
                }
                else if j < s1.len() + s2.len() {
                    assert(big[j] == s2[j - (s1.len())]);
                }
                else if j < s1.len() + s2.len() + s3.len() {
                    assert(big[j] == s3[j - (s1.len() + s2.len())]);
                }
                else if j < s1.len() + s2.len() + s3.len() + s4.len() {
                    assert(big[j] == s4[j - (s1.len() + s2.len() + s3.len())]);
                }
                else if j < s1.len() + s2.len() + s3.len() + s4.len() + s5.len() {
                    assert(big[j] == s5[j - (s1.len() + s2.len() + s3.len() + s4.len())]);
                }
                else if j < s1.len() + s2.len() + s3.len() + s4.len() + s5.len() + s6.len() {
                    assert(big[j] == s6[j - (s1.len() + s2.len() + s3.len() + s4.len() + s5.len())]);
                }
                else if j < s1.len() + s2.len() + s3.len() + s4.len() + s5.len() + s6.len() + s7.len() {
                    assert(big[j] == s7[j - (s1.len() + s2.len() + s3.len() + s4.len() + s5.len() + s6.len())]);
                }
                else if j < s1.len() + s2.len() + s3.len() + s4.len() + s5.len() + s6.len() + s7.len() + s8.len() {
                    assert(big[j] == s8[j - (s1.len() + s2.len() + s3.len() + s4.len() + s5.len() + s6.len() + s7.len())]);
                }
                else if j < s1.len() + s2.len() + s3.len() + s4.len() + s5.len() + s6.len() + s7.len() + s8.len() + s9.len() {
                    assert(big[j] == s9[j - (s1.len() + s2.len() + s3.len() + s4.len() + s5.len() + s6.len() + s7.len() + s8.len())]);
                }
            }
            lemma_find_section_none(big, "LongTermKey"@);
        },
    }
}

/// The typed record read back from the parsed sections of a record's text
/// is the record itself.
#[verifier::rlimit(100)]
#[verifier::spinoff_prover]
proof fn lemma_secs_recover(d: BtDeviceV)
    ensures
        record_of(secs_of(rec_entries(d))) == Some(d),
{
    lemma_find_slot_general(d);
    lemma_find_slot_device_id(d);
    lemma_find_slot_connection_parameters(d);
    lemma_find_slot_link_key(d);
    lemma_find_slot_identity_resolving_key(d);
    lemma_find_slot_slave_long_term_key(d);
    lemma_find_slot_peripheral_long_term_key(d);
    lemma_find_slot_local_signature_key(d);
    lemma_find_slot_long_term_key(d);
    match d.general {
        Some(x) => {
            lemma_general_recover(x);
        },
        None => {},
    }
    match d.device_id {
        Some(x) => {
            lemma_device_id_recover(x);
        },
        None => {},
    }
    match d.connection_parameters {
        Some(x) => {
            lemma_connection_parameters_recover(x);
        },
        None => {},
    }
    match d.link_key {
        Some(x) => {
            lemma_link_key_recover(x);
        },
        None => {},
    }
    match d.identity_resolving_key {
        Some(x) => {
            lemma_single_key_recover(x);
        },
        None => {},
    }
    match d.slave_long_term_key {
        Some(x) => {
            lemma_ltk_section_recover(x);
        },
        None => {},
    }
    match d.peripheral_long_term_key {
        Some(x) => {
            lemma_ltk_section_recover(x);
        },
        None => {},
    }
    match d.local_signature_key {
        Some(x) => {
            lemma_single_key_recover(x);
        },
        None => {},
    }
    match d.long_term_key {
        Some(x) => {
            lemma_ltk_section_recover(x);
        },
        None => {},
    }
    let big = secs_of(rec_entries(d));
    assert(record_of(big) is Some);
    assert(record_of(big)->0 =~~= d);
}


/// Parsing the serialized text of a clean record gives the record back.
pub proof fn lemma_info_round_trip(d: BtDeviceV)
    requires
        record_clean(d),
    ensures
        spec_parse_info(info_text(d)) == Some(d),
{
    lemma_info_text_entries(d);
    lemma_rec_entries_clean(d);
    lemma_parse_sections_text(rec_entries(d));
    lemma_secs_recover(d);
}

/// Rendered key material is a clean value: uppercase hexadecimal digits
/// carry no line break and no whitespace.
proof fn lemma_key_hex_clean(b: Seq<u8>)
    ensures
        value_clean(key_hex(b)),
{
    let s = key_hex(b);
    assert forall|i: int| 0 <= i < s.len() implies (48 <= ((#[trigger] s[i]) as u32) <= 57) || (65
        <= (s[i] as u32) <= 70) by {
        if i % 2 == 0 {
            let v = (b[i / 2] / 16) as u8;
            assert(s[i] == upper_hex_digit(v));
            assert(v < 16);
        } else {
            let v = (b[i / 2] % 16) as u8;
            assert(s[i] == upper_hex_digit(v));
            assert(v < 16);
        }
    }
    assert forall|i: int| 0 <= i < s.len() implies s[i] != '\n' by {
        assert(('\n' as u32) == 10);
    }
    if s.len() > 0 {
        assert(!is_ini_space(s[0]) && !is_ini_space(s.last())) by {
            assert((' ' as u32) == 32 && ('\t' as u32) == 9 && ('\r' as u32) == 13);
        }
    }
    lemma_ends_clean_trim(s);
}

/// Merging clean credentials into a clean record leaves a clean record:
/// every replaced field is rendered key material, and every preserved field
/// was clean as found.
pub proof fn lemma_merged_clean(
    d: BtDeviceV,
    ltk: Seq<u8>,
    e_rand: Option<Seq<u8>>,
    e_div: Option<Seq<u8>>,
    irk: Option<Seq<u8>>,
    csrk: Option<Seq<u8>>,
)
    requires
        record_clean(d),
    ensures
        record_clean(merged_device(d, ltk, e_rand, e_div, irk, csrk)),
{
    lemma_key_hex_clean(ltk);
    match irk {
        Some(x) => {
            lemma_key_hex_clean(x);
        },
        None => {},
    }
    match csrk {
        Some(x) => {
            lemma_key_hex_clean(x);
        },
        None => {},
    }
    match e_rand {
        Some(x) => {
            lemma_key_hex_clean(x);
        },
        None => {},
    }
    match e_div {
        Some(x) => {
            lemma_key_hex_clean(x);
        },
        None => {},
    }
}

/// Re-running the merge on its own output is byte-identical: the rewritten
/// text of a merged record parses back to that record, and merging the same
/// credentials into it again changes nothing, so the rewritten text is a
/// fixed point of the whole update.
pub proof fn lemma_merge_idempotent_text(
    rec: BtDeviceV,
    ltk: Seq<u8>,
    e_rand: Option<Seq<u8>>,
    e_div: Option<Seq<u8>>,
    irk: Option<Seq<u8>>,
    csrk: Option<Seq<u8>>,
)
    requires
        record_clean(rec),
    ensures
        ({
            let once = merged_device(rec, ltk, e_rand, e_div, irk, csrk);
            &&& spec_parse_info(info_text(once)) == Some(once)
            &&& info_text(merged_device(once, ltk, e_rand, e_div, irk, csrk)) == info_text(once)
        }),
{
    let once = merged_device(rec, ltk, e_rand, e_div, irk, csrk);
    lemma_merged_clean(rec, ltk, e_rand, e_div, irk, csrk);
    lemma_info_round_trip(once);
    lemma_merge_idempotent(rec, ltk, e_rand, e_div, irk, csrk);
}

} // verus!
