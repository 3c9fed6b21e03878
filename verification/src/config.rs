//! Configuration text in a keyed-document format: `[section]` headers and
//! `key = value` lines, with strings, integers, and homogeneous lists as
//! values.  Skill manifests use the same format.

use vstd::prelude::*;
use vstd::string::*;

use crate::num::dec_i64_in_range;
use crate::num::i64_dec_digits;
use crate::num::u64_dec_digits;
use crate::text::find_char;
use crate::text::lines_of;
use crate::text::split_char_seq;
use crate::text::trim_spec;

verus! {

// ── Values and documents ────────────────────────────────────────────────────

/// A configuration value.
#[derive(Debug)]
pub enum TomlValue {
    Str(String),
    Int(i64),
    StrList(Vec<String>),
    IntList(Vec<i64>),
}

/// The mathematical shape of a configuration value.
pub enum TomlValueModel {
    Str(Seq<char>),
    Int(i64),
    StrList(Seq<Seq<char>>),
    IntList(Seq<i64>),
}

pub open spec fn value_model(v: TomlValue) -> TomlValueModel {
    match v {
        TomlValue::Str(s) => TomlValueModel::Str(s@),
        TomlValue::Int(n) => TomlValueModel::Int(n),
        TomlValue::StrList(l) => TomlValueModel::StrList(l.deep_view()),
        TomlValue::IntList(l) => TomlValueModel::IntList(l@),
    }
}

/// One `key = value` binding.
#[derive(Debug)]
pub struct TomlEntry {
    pub key: String,
    pub value: TomlValue,
}

/// One named section with its bindings, in insertion order.
#[derive(Debug)]
pub struct TomlSection {
    pub name: String,
    pub entries: Vec<TomlEntry>,
}

/// A parsed configuration document: sections in order of first appearance,
/// each name appearing once.
#[derive(Debug)]
pub struct TomlDoc {
    pub sections: Vec<TomlSection>,
}

pub open spec fn entries_model(es: Seq<TomlEntry>) -> Seq<(Seq<char>, TomlValueModel)> {
    Seq::new(es.len(), |i: int| (es[i].key@, value_model(es[i].value)))
}

pub open spec fn doc_model(ss: Seq<TomlSection>) -> Seq<(Seq<char>, Seq<(Seq<char>, TomlValueModel)>)> {
    Seq::new(ss.len(), |i: int| (ss[i].name@, entries_model(ss[i].entries@)))
}

/// The entries of the first section named `name`.
pub open spec fn model_find_section(
    ss: Seq<(Seq<char>, Seq<(Seq<char>, TomlValueModel)>)>,
    name: Seq<char>,
) -> Option<Seq<(Seq<char>, TomlValueModel)>>
    decreases ss.len(),
{
    if ss.len() == 0 {
        None
    } else if ss[0].0 == name {
        Some(ss[0].1)
    } else {
        model_find_section(ss.skip(1), name)
    }
}

/// The value of the last binding of `key`: a later line for the same key
/// wins.
pub open spec fn model_find_key(
    es: Seq<(Seq<char>, TomlValueModel)>,
    key: Seq<char>,
) -> Option<TomlValueModel>
    decreases es.len(),
{
    if es.len() == 0 {
        None
    } else if es.last().0 == key {
        Some(es.last().1)
    } else {
        model_find_key(es.drop_last(), key)
    }
}

/// The value bound to `key` in section `section` of a document model.
pub open spec fn model_get(
    m: Seq<(Seq<char>, Seq<(Seq<char>, TomlValueModel)>)>,
    section: Seq<char>,
    key: Seq<char>,
) -> Option<TomlValueModel> {
    match model_find_section(m, section) {
        None => None,
        Some(es) => model_find_key(es, key),
    }
}

/// What `get_str` yields on a document model: a string itself, an integer
/// as its numeral.
pub open spec fn model_get_str(
    m: Seq<(Seq<char>, Seq<(Seq<char>, TomlValueModel)>)>,
    section: Seq<char>,
    key: Seq<char>,
) -> Option<Seq<char>> {
    match model_get(m, section, key) {
        Some(TomlValueModel::Str(s)) => Some(s),
        Some(TomlValueModel::Int(n)) => Some(i64_dec_digits(n as int)),
        _ => None,
    }
}

/// What `get_str_list` yields on a document model.
pub open spec fn model_get_str_list(
    m: Seq<(Seq<char>, Seq<(Seq<char>, TomlValueModel)>)>,
    section: Seq<char>,
    key: Seq<char>,
) -> Option<Seq<Seq<char>>> {
    match model_get(m, section, key) {
        Some(TomlValueModel::StrList(l)) => Some(l),
        _ => None,
    }
}

/// What `get_i64_list` yields on a document model.
pub open spec fn model_get_i64_list(
    m: Seq<(Seq<char>, Seq<(Seq<char>, TomlValueModel)>)>,
    section: Seq<char>,
    key: Seq<char>,
) -> Option<Seq<i64>> {
    match model_get(m, section, key) {
        Some(TomlValueModel::IntList(l)) => Some(l),
        _ => None,
    }
}

/// The value bound to `key` in section `section` of the document.
pub open spec fn toml_get(doc: TomlDoc, section: Seq<char>, key: Seq<char>) -> Option<
    TomlValueModel,
> {
    model_get(doc_model(doc.sections@), section, key)
}

// ── Value parsing ───────────────────────────────────────────────────────────

/// The kept elements of a quoted-string list: each item, trimmed, that is a
/// quoted string, without its quotes.
pub open spec fn str_items(items: Seq<Seq<char>>) -> Seq<Seq<char>>
    decreases items.len(),
{
    if items.len() == 0 {
        Seq::empty()
    } else {
        let it = trim_spec(items[0]);
        let rest = str_items(items.skip(1));
        if it.len() >= 2 && it[0] == '"' && it.last() == '"' {
            seq![it.subrange(1, it.len() - 1)] + rest
        } else {
            rest
        }
    }
}

/// The kept elements of an integer list: each item, trimmed, that is an
/// `i64` numeral.
pub open spec fn int_items(items: Seq<Seq<char>>) -> Seq<i64>
    decreases items.len(),
{
    if items.len() == 0 {
        Seq::empty()
    } else {
        let it = trim_spec(items[0]);
        let rest = int_items(items.skip(1));
        match dec_i64_in_range(it) {
            Some(v) => seq![v] + rest,
            None => rest,
        }
    }
}

/// What a value text means.  A quoted string ends at the first closing
/// quote; a bracketed list is typed by its first element; a bare numeral is
/// an integer; `true` and `false` read as strings.
pub open spec fn parse_toml_value_spec(s0: Seq<char>) -> Result<TomlValueModel, Seq<char>> {
    let s = trim_spec(s0);
    if s.len() > 0 && s[0] == '"' {
        let e = find_char(s.skip(1), '"');
        if 0 <= e < s.len() - 1 {
            Ok(TomlValueModel::Str(s.subrange(1, 1 + e)))
        } else {
            Err("unterminated string"@)
        }
    } else if s.len() > 0 && s[0] == '[' {
        if s.len() >= 2 && s.last() == ']' {
            let inner = trim_spec(s.subrange(1, s.len() - 1));
            if inner.len() == 0 {
                Ok(TomlValueModel::StrList(Seq::empty()))
            } else {
                let items = split_char_seq(inner, ',');
                let first = trim_spec(items[0]);
                if first.len() > 0 && first[0] == '"' {
                    Ok(TomlValueModel::StrList(str_items(items)))
                } else {
                    Ok(TomlValueModel::IntList(int_items(items)))
                }
            }
        } else {
            Err("unterminated array"@)
        }
    } else if dec_i64_in_range(s) is Some {
        Ok(TomlValueModel::Int(dec_i64_in_range(s).unwrap()))
    } else if s == "true"@ || s == "false"@ {
        Ok(TomlValueModel::Str(s))
    } else {
        Err("cannot parse value: "@ + s)
    }
}

// ── Document folding ────────────────────────────────────────────────────────

/// Everything before the first `#`.
pub open spec fn strip_comment(line: Seq<char>) -> Seq<char> {
    let i = find_char(line, '#');
    if 0 <= i < line.len() {
        line.take(i)
    } else {
        line
    }
}

/// The document with a (possibly empty) section of this name present.
pub open spec fn ensure_section_model(
    ss: Seq<(Seq<char>, Seq<(Seq<char>, TomlValueModel)>)>,
    name: Seq<char>,
) -> Seq<(Seq<char>, Seq<(Seq<char>, TomlValueModel)>)>
    decreases ss.len(),
{
    if ss.len() == 0 {
        seq![(name, Seq::empty())]
    } else if ss[0].0 == name {
        ss
    } else {
        seq![ss[0]] + ensure_section_model(ss.skip(1), name)
    }
}

/// The document with `(key, v)` appended to the section of this name,
/// creating the section at the end when absent.
pub open spec fn add_pair_model(
    ss: Seq<(Seq<char>, Seq<(Seq<char>, TomlValueModel)>)>,
    name: Seq<char>,
    key: Seq<char>,
    v: TomlValueModel,
) -> Seq<(Seq<char>, Seq<(Seq<char>, TomlValueModel)>)>
    decreases ss.len(),
{
    if ss.len() == 0 {
        seq![(name, seq![(key, v)])]
    } else if ss[0].0 == name {
        seq![(ss[0].0, ss[0].1.push((key, v)))] + ss.skip(1)
    } else {
        seq![ss[0]] + add_pair_model(ss.skip(1), name, key, v)
    }
}

/// Fold the remaining lines into the document.  `cur` is the section that
/// key lines currently land in; `lineno` numbers the next line, 1-based.
pub open spec fn toml_fold(
    ss: Seq<(Seq<char>, Seq<(Seq<char>, TomlValueModel)>)>,
    cur: Seq<char>,
    lines: Seq<Seq<char>>,
    lineno: int,
) -> Result<Seq<(Seq<char>, Seq<(Seq<char>, TomlValueModel)>)>, Seq<char>>
    decreases lines.len(),
{
    if lines.len() == 0 {
        Ok(ss)
    } else {
        let line = trim_spec(strip_comment(lines[0]));
        if line.len() == 0 {
            toml_fold(ss, cur, lines.skip(1), lineno + 1)
        } else if line[0] == '[' && line.last() == ']' {
            let name = trim_spec(line.subrange(1, line.len() - 1));
            toml_fold(ensure_section_model(ss, name), name, lines.skip(1), lineno + 1)
        } else {
            let eq = find_char(line, '=');
            if !(0 <= eq < line.len()) {
                Err("line "@ + u64_dec_digits(lineno) + ": expected '='"@)
            } else {
                let key = trim_spec(line.take(eq));
                match parse_toml_value_spec(line.skip(eq + 1)) {
                    Ok(v) => toml_fold(
                        add_pair_model(ss, cur, key, v),
                        cur,
                        lines.skip(1),
                        lineno + 1,
                    ),
                    Err(e) => Err("line "@ + u64_dec_digits(lineno) + ": "@ + e),
                }
            }
        }
    }
}

/// What parsing a whole document text yields.
pub open spec fn parse_toml_spec(input: Seq<char>) -> Result<
    Seq<(Seq<char>, Seq<(Seq<char>, TomlValueModel)>)>,
    Seq<char>,
> {
    toml_fold(Seq::empty(), Seq::empty(), lines_of(input), 1)
}

// ── Model lemmas ────────────────────────────────────────────────────────────

proof fn lemma_ensure_section_found(
    ss: Seq<(Seq<char>, Seq<(Seq<char>, TomlValueModel)>)>,
    name: Seq<char>,
    i: int,
)
    requires
        0 <= i < ss.len(),
        ss[i].0 == name,
        forall|j: int| 0 <= j < i ==> ss[j].0 != name,
    ensures
        ensure_section_model(ss, name) == ss,
    decreases i,
{
    if i > 0 {
        lemma_ensure_section_found(ss.skip(1), name, i - 1);
        assert(seq![ss[0]] + ss.skip(1) =~= ss);
    } else {
        assert(ss[0].0 == name);
    }
}

proof fn lemma_ensure_section_missing(
    ss: Seq<(Seq<char>, Seq<(Seq<char>, TomlValueModel)>)>,
    name: Seq<char>,
)
    requires
        forall|j: int| 0 <= j < ss.len() ==> ss[j].0 != name,
    ensures
        ensure_section_model(ss, name) == ss.push((name, Seq::empty())),
    decreases ss.len(),
{
    if ss.len() == 0 {
        assert(seq![(name, Seq::<(Seq<char>, TomlValueModel)>::empty())] =~= ss.push(
            (name, Seq::empty()),
        ));
    } else {
        lemma_ensure_section_missing(ss.skip(1), name);
        assert(seq![ss[0]] + ss.skip(1).push((name, Seq::empty())) =~= ss.push(
            (name, Seq::empty()),
        ));
    }
}

proof fn lemma_add_pair_found(
    ss: Seq<(Seq<char>, Seq<(Seq<char>, TomlValueModel)>)>,
    name: Seq<char>,
    key: Seq<char>,
    v: TomlValueModel,
    i: int,
)
    requires
        0 <= i < ss.len(),
        ss[i].0 == name,
        forall|j: int| 0 <= j < i ==> ss[j].0 != name,
    ensures
        add_pair_model(ss, name, key, v) == ss.update(i, (name, ss[i].1.push((key, v)))),
    decreases i,
{
    if i > 0 {
        lemma_add_pair_found(ss.skip(1), name, key, v, i - 1);
        assert(seq![ss[0]] + ss.skip(1).update(i - 1, (name, ss[i].1.push((key, v)))) =~= ss.update(
            i,
            (name, ss[i].1.push((key, v))),
        ));
    } else {
        assert(seq![(ss[0].0, ss[0].1.push((key, v)))] + ss.skip(1) =~= ss.update(
            0,
            (name, ss[0].1.push((key, v))),
        ));
    }
}

proof fn lemma_add_pair_missing(
    ss: Seq<(Seq<char>, Seq<(Seq<char>, TomlValueModel)>)>,
    name: Seq<char>,
    key: Seq<char>,
    v: TomlValueModel,
)
    requires
        forall|j: int| 0 <= j < ss.len() ==> ss[j].0 != name,
    ensures
        add_pair_model(ss, name, key, v) == ss.push((name, seq![(key, v)])),
    decreases ss.len(),
{
    if ss.len() == 0 {
        assert(seq![(name, seq![(key, v)])] =~= ss.push((name, seq![(key, v)])));
    } else {
        lemma_add_pair_missing(ss.skip(1), name, key, v);
        assert(seq![ss[0]] + ss.skip(1).push((name, seq![(key, v)])) =~= ss.push(
            (name, seq![(key, v)]),
        ));
    }
}

// ── Executable parser ───────────────────────────────────────────────────────

/// Parse one value text.
pub fn parse_toml_value(s: &str) -> (r: Result<TomlValue, String>)
    ensures
        match r {
            Ok(v) => parse_toml_value_spec(s@) matches Ok(m) && value_model(v) == m,
            Err(e) => parse_toml_value_spec(s@) matches Err(me) && e@ == me,
        },
{
    let raw = crate::text::str_to_chars(s);
    parse_toml_value_chars(&raw)
}

/// Parse one value text, given as characters.
fn parse_toml_value_chars(raw: &Vec<char>) -> (r: Result<TomlValue, String>)
    ensures
        match r {
            Ok(v) => parse_toml_value_spec(raw@) matches Ok(m) && value_model(v) == m,
            Err(e) => parse_toml_value_spec(raw@) matches Err(me) && e@ == me,
        },
{
    let t = crate::text::trim_chars(raw);
    let n = t.len();
    if n > 0 && t[0] == '"' {
        let tail = crate::text::subrange_chars(&t, 1, n);
        proof {
            assert(tail@ =~= t@.skip(1));
        }
        match crate::text::find_in_chars(&tail, '"') {
            Some(e) => {
                let content = crate::text::subrange_chars(&t, 1, 1 + e);
                proof {
                    assert(content@ =~= t@.subrange(1, 1 + e));
                }
                Ok(TomlValue::Str(crate::text::chars_to_string(&content)))
            },
            None => Err(String::from_str("unterminated string")),
        }
    } else if n > 0 && t[0] == '[' {
        if n >= 2 && t[n - 1] == ']' {
            let body = crate::text::subrange_chars(&t, 1, n - 1);
            let inner = crate::text::trim_chars(&body);
            if inner.len() == 0 {
                let empty_list: Vec<String> = Vec::new();
                proof {
                    assert(empty_list.deep_view() =~= Seq::<Seq<char>>::empty());
                }
                Ok(TomlValue::StrList(empty_list))
            } else {
                let items = crate::text::split_on_char(&inner, ',');
                let first = crate::text::trim_chars(&items[0]);
                proof {
                    assert(items@[0]@ == items.deep_view()[0]);
                }
                if first.len() > 0 && first[0] == '"' {
                    Ok(TomlValue::StrList(collect_str_items(&items)))
                } else {
                    Ok(TomlValue::IntList(collect_int_items(&items)))
                }
            }
        } else {
            Err(String::from_str("unterminated array"))
        }
    } else {
        match crate::num::parse_i64_chars(&t) {
            Some(v) => Ok(TomlValue::Int(v)),
            None => {
                proof {
                    reveal_strlit("true");
                    reveal_strlit("false");
                }
                let is_true = n == 4 && t[0] == 't' && t[1] == 'r' && t[2] == 'u' && t[3] == 'e';
                let is_false = n == 5 && t[0] == 'f' && t[1] == 'a' && t[2] == 'l' && t[3] == 's'
                    && t[4] == 'e';
                proof {
                    assert(is_true <==> t@ =~= "true"@);
                    assert(is_false <==> t@ =~= "false"@);
                }
                if is_true || is_false {
                    Ok(TomlValue::Str(crate::text::chars_to_string(&t)))
                } else {
                    Err(String::from_str("cannot parse value: ").concat(
                        crate::text::chars_to_string(&t).as_str(),
                    ))
                }
            },
        }
    }
}

/// Keep the quoted items of a list, without their quotes.
fn collect_str_items(items: &Vec<Vec<char>>) -> (r: Vec<String>)
    ensures
        r.deep_view() == str_items(items.deep_view()),
{
    let mut r: Vec<String> = Vec::new();
    let n = items.len();
    let mut i: usize = 0;
    proof {
        assert(items.deep_view().skip(0) =~= items.deep_view());
        assert(r.deep_view() + str_items(items.deep_view()) =~= str_items(items.deep_view()));
    }
    while i < n
        invariant
            i <= n,
            n == items@.len(),
            str_items(items.deep_view()) == r.deep_view() + str_items(items.deep_view().skip(
                i as int,
            )),
        decreases n - i,
    {
        let it = crate::text::trim_chars(&items[i]);
        let m = it.len();
        proof {
            assert(items.deep_view().skip(i as int)[0] == items@[i as int]@);
            assert(items.deep_view().skip(i as int).skip(1) =~= items.deep_view().skip(i + 1));
        }
        if m >= 2 && it[0] == '"' && it[m - 1] == '"' {
            let content = crate::text::subrange_chars(&it, 1, m - 1);
            proof {
                assert(content@ =~= it@.subrange(1, it@.len() - 1));
            }
            let ghost pre = r.deep_view();
            r.push(crate::text::chars_to_string(&content));
            proof {
                assert(r.deep_view() =~~= pre.push(content@));
                assert(pre.push(content@) =~= pre + seq![content@]);
                assert(r.deep_view() + str_items(items.deep_view().skip(i + 1)) =~= pre + (seq![
                    content@,
                ] + str_items(items.deep_view().skip(i + 1))));
            }
        }
        i = i + 1;
    }
    proof {
        assert(str_items(items.deep_view().skip(n as int)) =~= Seq::<Seq<char>>::empty());
        assert(r.deep_view() =~= str_items(items.deep_view()));
    }
    r
}

/// Leave `sections` with a section of this name present.
fn ensure_section(sections: &mut Vec<TomlSection>, name: &Vec<char>)
    ensures
        doc_model(final(sections)@) == ensure_section_model(doc_model(old(sections)@), name@),
{
    let ghost m0 = doc_model(sections@);
    let n = sections.len();
    let mut i: usize = 0;
    while i < n
        invariant
            i <= n,
            n == sections@.len(),
            sections@ == old(sections)@,
            m0 == doc_model(sections@),
            forall|j: int| 0 <= j < i ==> sections@[j].name@ != name@,
        decreases n - i,
    {
        let nm = crate::text::str_to_chars(sections[i].name.as_str());
        if crate::text::eq_chars(&nm, name) {
            proof {
                assert(m0[i as int].0 == name@);
                assert(forall|j: int| 0 <= j < i ==> m0[j].0 != name@);
                lemma_ensure_section_found(m0, name@, i as int);
            }
            return;
        }
        i = i + 1;
    }
    proof {
        assert(forall|j: int| 0 <= j < m0.len() ==> m0[j].0 != name@);
        lemma_ensure_section_missing(m0, name@);
    }
    sections.push(TomlSection { name: crate::text::chars_to_string(name), entries: Vec::new() });
    proof {
        assert(entries_model(sections@.last().entries@) =~= Seq::<(Seq<char>, TomlValueModel)>::empty());
        assert(doc_model(sections@) =~~= m0.push((name@, Seq::empty())));
    }
}

/// Append a binding to the named section, creating it when absent.
fn add_pair(sections: &mut Vec<TomlSection>, name: &Vec<char>, key: Vec<char>, value: TomlValue)
    ensures
        doc_model(final(sections)@) == add_pair_model(
            doc_model(old(sections)@),
            name@,
            key@,
            value_model(value),
        ),
{
    let ghost m0 = doc_model(sections@);
    let ghost vm = value_model(value);
    let ghost keyv = key@;
    let entry = TomlEntry { key: crate::text::chars_to_string(&key), value };
    let n = sections.len();
    let mut i: usize = 0;
    while i < n
        invariant
            i <= n,
            n == sections@.len(),
            sections@ == old(sections)@,
            m0 == doc_model(sections@),
            entry.key@ == keyv,
            value_model(entry.value) == vm,
            keyv == key@,
            vm == value_model(value),
            forall|j: int| 0 <= j < i ==> sections@[j].name@ != name@,
        decreases n - i,
    {
        let nm = crate::text::str_to_chars(sections[i].name.as_str());
        if crate::text::eq_chars(&nm, name) {
            proof {
                assert(m0[i as int].0 == name@);
                assert(forall|j: int| 0 <= j < i ==> m0[j].0 != name@);
                lemma_add_pair_found(m0, name@, keyv, vm, i as int);
            }
            sections[i].entries.push(entry);
            proof {
                assert(entries_model(sections@[i as int].entries@) =~~= m0[i as int].1.push(
                    (keyv, vm),
                ));
                assert(doc_model(sections@) =~~= m0.update(
                    i as int,
                    (name@, m0[i as int].1.push((keyv, vm))),
                ));
            }
            return;
        }
        i = i + 1;
    }
    proof {
        assert(forall|j: int| 0 <= j < m0.len() ==> m0[j].0 != name@);
        lemma_add_pair_missing(m0, name@, keyv, vm);
    }
    let mut es: Vec<TomlEntry> = Vec::new();
    es.push(entry);
    sections.push(TomlSection { name: crate::text::chars_to_string(name), entries: es });
    proof {
        assert(entries_model(sections@.last().entries@) =~= seq![(keyv, vm)]);
        assert(doc_model(sections@) =~~= m0.push((name@, seq![(keyv, vm)])));
    }
}

/// Keep the integer items of a list.
fn collect_int_items(items: &Vec<Vec<char>>) -> (r: Vec<i64>)
    ensures
        r@ == int_items(items.deep_view()),
{
    let mut r: Vec<i64> = Vec::new();
    let n = items.len();
    let mut i: usize = 0;
    proof {
        assert(items.deep_view().skip(0) =~= items.deep_view());
        assert(r@ + int_items(items.deep_view()) =~= int_items(items.deep_view()));
    }
    while i < n
        invariant
            i <= n,
            n == items@.len(),
            int_items(items.deep_view()) == r@ + int_items(items.deep_view().skip(i as int)),
        decreases n - i,
    {
        let it = crate::text::trim_chars(&items[i]);
        proof {
            assert(items.deep_view().skip(i as int)[0] == items@[i as int]@);
            assert(items.deep_view().skip(i as int).skip(1) =~= items.deep_view().skip(i + 1));
        }
        match crate::num::parse_i64_chars(&it) {
            Some(v) => {
                let ghost pre = r@;
                r.push(v);
                proof {
                    assert(r@ + int_items(items.deep_view().skip(i + 1)) =~= pre + (seq![v]
                        + int_items(items.deep_view().skip(i + 1))));
                }
            },
            None => {},
        }
        i = i + 1;
    }
    proof {
        assert(int_items(items.deep_view().skip(n as int)) =~= Seq::<i64>::empty());
        assert(r@ =~= int_items(items.deep_view()));
    }
    r
}

/// Parse a whole configuration text.
pub fn parse_toml(input: &str) -> (r: Result<TomlDoc, String>)
    ensures
        match r {
            Ok(doc) => parse_toml_spec(input@) matches Ok(m) && doc_model(doc.sections@) == m,
            Err(e) => parse_toml_spec(input@) matches Err(me) && e@ == me,
        },
{
    let chars = crate::text::str_to_chars(input);
    let lines = crate::text::split_lines(&chars);
    let mut sections: Vec<TomlSection> = Vec::new();
    let mut cur: Vec<char> = Vec::new();
    let n = lines.len();
    let mut i: usize = 0;
    proof {
        assert(doc_model(sections@) =~= Seq::<(Seq<char>, Seq<(Seq<char>, TomlValueModel)>)>::empty());
        assert(cur@ =~= Seq::<char>::empty());
        assert(lines.deep_view().skip(0) =~= lines.deep_view());
    }
    while i < n
        invariant
            i <= n,
            n == lines@.len(),
            lines.deep_view() == lines_of(input@),
            parse_toml_spec(input@) == toml_fold(
                doc_model(sections@),
                cur@,
                lines.deep_view().skip(i as int),
                i + 1,
            ),
        decreases n - i,
    {
        let ghost lv = lines.deep_view()[i as int];
        proof {
            assert(lines.deep_view().skip(i as int)[0] == lv);
            assert(lines.deep_view().skip(i as int).skip(1) =~= lines.deep_view().skip(i + 1));
            assert(lines@[i as int]@ == lv);
        }
        let raw = &lines[i];
        let stripped = match crate::text::find_in_chars(raw, '#') {
            Some(p) => crate::text::subrange_chars(raw, 0, p),
            None => crate::text::subrange_chars(raw, 0, raw.len()),
        };
        proof {
            if find_char(lv, '#') >= 0 {
                assert(stripped@ =~= lv.take(find_char(lv, '#')));
            } else {
                assert(stripped@ =~= lv);
            }
            assert(stripped@ == strip_comment(lv));
        }
        let line = crate::text::trim_chars(&stripped);
        let m = line.len();
        if m == 0 {
            // blank or comment-only line
        } else if line[0] == '[' && line[m - 1] == ']' {
            let body = crate::text::subrange_chars(&line, 1, m - 1);
            let name = crate::text::trim_chars(&body);
            proof {
                assert(body@ =~= line@.subrange(1, line@.len() - 1));
            }
            ensure_section(&mut sections, &name);
            cur = name;
        } else {
            match crate::text::find_in_chars(&line, '=') {
                None => {
                    let msg = String::from_str("line ").concat(
                        crate::num::u64_to_dec_string((i as u64) + 1).as_str(),
                    ).concat(": expected '='");
                    return Err(msg);
                },
                Some(eq) => {
                    let keyb = crate::text::subrange_chars(&line, 0, eq);
                    let key = crate::text::trim_chars(&keyb);
                    let vs = crate::text::subrange_chars(&line, eq + 1, m);
                    proof {
                        assert(keyb@ =~= line@.take(eq as int));
                        assert(vs@ =~= line@.skip(eq + 1));
                    }
                    match parse_toml_value_chars(&vs) {
                        Ok(v) => {
                            add_pair(&mut sections, &cur, key, v);
                        },
                        Err(e) => {
                            let msg = String::from_str("line ").concat(
                                crate::num::u64_to_dec_string((i as u64) + 1).as_str(),
                            ).concat(": ").concat(e.as_str());
                            return Err(msg);
                        },
                    }
                },
            }
        }
        i = i + 1;
    }
    proof {
        assert(lines.deep_view().skip(n as int) =~= Seq::<Seq<char>>::empty());
    }
    Ok(TomlDoc { sections })
}

// ── Lookup ──────────────────────────────────────────────────────────────────

impl TomlDoc {
    /// The string form of the value under `section.key`: a string as itself,
    /// an integer as its numeral, a list as nothing.
    pub fn get_str(&self, section: &str, key: &str) -> (r: Option<String>)
        ensures
            match toml_get(*self, section@, key@) {
                Some(TomlValueModel::Str(s)) => r matches Some(x) && x@ == s,
                Some(TomlValueModel::Int(n)) => r matches Some(x) && x@ == i64_dec_digits(
                    n as int,
                ),
                _ => r is None,
            },
    {
        match self.find_entry(section, key) {
            None => None,
            Some((i, j)) => {
                match &self.sections[i].entries[j].value {
                    TomlValue::Str(s) => Some(s.clone()),
                    TomlValue::Int(v) => Some(crate::num::i64_to_dec_string(*v)),
                    _ => None,
                }
            },
        }
    }

    /// The value under `section.key` when it is a list of strings.
    pub fn get_str_list(&self, section: &str, key: &str) -> (r: Option<Vec<String>>)
        ensures
            match toml_get(*self, section@, key@) {
                Some(TomlValueModel::StrList(l)) => r matches Some(x) && x.deep_view() == l,
                _ => r is None,
            },
    {
        match self.find_entry(section, key) {
            None => None,
            Some((i, j)) => {
                match &self.sections[i].entries[j].value {
                    TomlValue::StrList(l) => {
                        let mut out: Vec<String> = Vec::new();
                        let n = l.len();
                        let mut k: usize = 0;
                        while k < n
                            invariant
                                k <= n,
                                n == l@.len(),
                                out@.len() == k,
                                forall|t: int| 0 <= t < k ==> out@[t]@ == l@[t]@,
                            decreases n - k,
                        {
                            out.push(l[k].clone());
                            k = k + 1;
                        }
                        proof {
                            assert(out.deep_view() =~= l.deep_view());
                        }
                        Some(out)
                    },
                    _ => None,
                }
            },
        }
    }

    /// The value under `section.key` when it is a list of integers.
    pub fn get_i64_list(&self, section: &str, key: &str) -> (r: Option<Vec<i64>>)
        ensures
            match toml_get(*self, section@, key@) {
                Some(TomlValueModel::IntList(l)) => r matches Some(x) && x@ == l,
                _ => r is None,
            },
    {
        match self.find_entry(section, key) {
            None => None,
            Some((i, j)) => {
                match &self.sections[i].entries[j].value {
                    TomlValue::IntList(l) => {
                        let mut out: Vec<i64> = Vec::new();
                        let n = l.len();
                        let mut k: usize = 0;
                        while k < n
                            invariant
                                k <= n,
                                n == l@.len(),
                                out@ == l@.take(k as int),
                            decreases n - k,
                        {
                            out.push(l[k]);
                            proof {
                                assert(out@ =~= l@.take(k + 1));
                            }
                            k = k + 1;
                        }
                        proof {
                            assert(out@ =~= l@);
                        }
                        Some(out)
                    },
                    _ => None,
                }
            },
        }
    }

    /// Locate the binding that `toml_get` speaks of, as section and entry
    /// indices.
    fn find_entry(&self, section: &str, key: &str) -> (r: Option<(usize, usize)>)
        ensures
            match r {
                Some((i, j)) => i < self.sections@.len() && j
                    < self.sections@[i as int].entries@.len() && toml_get(
                    *self,
                    section@,
                    key@,
                ) == Some(
                    value_model(self.sections@[i as int].entries@[j as int].value),
                ),
                None => toml_get(*self, section@, key@) is None,
            },
    {
        let ghost m = doc_model(self.sections@);
        let target = crate::text::str_to_chars(section);
        let n = self.sections.len();
        let mut i: usize = 0;
        while i < n
            invariant
                i <= n,
                n == self.sections@.len(),
                m == doc_model(self.sections@),
                target@ == section@,
                forall|t: int| 0 <= t < i ==> self.sections@[t].name@ != section@,
            decreases n - i,
        {
            let nm = crate::text::str_to_chars(self.sections[i].name.as_str());
            if crate::text::eq_chars(&nm, &target) {
                proof {
                    assert(m[i as int].0 == section@);
                    assert(forall|t: int| 0 <= t < i ==> m[t].0 != section@);
                    lemma_model_find_section_at(m, section@, i as int);
                }
                let es = &self.sections[i].entries;
                let ghost em = entries_model(es@);
                let keyt = crate::text::str_to_chars(key);
                let mut j: usize = es.len();
                proof {
                    assert(em.take(j as int) =~= em);
                }
                while j > 0
                    invariant
                        j <= es@.len(),
                        i < self.sections@.len(),
                        es@ == self.sections@[i as int].entries@,
                        em == entries_model(es@),
                        model_find_section(doc_model(self.sections@), section@) == Some(em),
                        keyt@ == key@,
                        model_find_key(em, key@) == model_find_key(em.take(j as int), key@),
                    decreases j,
                {
                    let ek = crate::text::str_to_chars(es[j - 1].key.as_str());
                    proof {
                        assert(em.take(j as int).last() == em[j - 1]);
                        assert(em.take(j as int).drop_last() =~= em.take(j - 1));
                    }
                    if crate::text::eq_chars(&ek, &keyt) {
                        return Some((i, j - 1));
                    }
                    j = j - 1;
                }
                proof {
                    assert(em.take(0) =~= Seq::<(Seq<char>, TomlValueModel)>::empty());
                }
                return None;
            }
            i = i + 1;
        }
        proof {
            lemma_model_find_section_none(m, section@);
        }
        None
    }
}

proof fn lemma_model_find_section_at(
    ss: Seq<(Seq<char>, Seq<(Seq<char>, TomlValueModel)>)>,
    name: Seq<char>,
    i: int,
)
    requires
        0 <= i < ss.len(),
        ss[i].0 == name,
        forall|j: int| 0 <= j < i ==> ss[j].0 != name,
    ensures
        model_find_section(ss, name) == Some(ss[i].1),
    decreases i,
{
    if i > 0 {
        lemma_model_find_section_at(ss.skip(1), name, i - 1);
    }
}

// ── Runtime configuration ───────────────────────────────────────────────────

/// The agent's runtime configuration, resolved from the environment and the
/// configuration file by the surrounding program.
pub struct Config {
    pub provider: String,
    pub api_key: String,
    pub model: String,
    pub max_tokens: u32,
    pub openai_base_url: String,
    pub system_prompt: Option<String>,
    pub telegram_token: String,
    pub telegram_allowed_users: Vec<i64>,
    pub allowed_read_paths: Vec<String>,
    pub allowed_write_paths: Vec<String>,
    pub allowed_commands: Vec<String>,
    pub command_timeout: u64,
    pub audit_log_path: Option<String>,
}

/// A configuration that cannot be loaded.
pub struct ConfigError(pub String);

impl ConfigError {
    /// The error's text.
    pub fn message(&self) -> (r: &String)
        ensures
            r@ == self.0@,
    {
        &self.0
    }
}

proof fn lemma_model_find_section_none(
    ss: Seq<(Seq<char>, Seq<(Seq<char>, TomlValueModel)>)>,
    name: Seq<char>,
)
    requires
        forall|j: int| 0 <= j < ss.len() ==> ss[j].0 != name,
    ensures
        model_find_section(ss, name) is None,
    decreases ss.len(),
{
    if ss.len() > 0 {
        lemma_model_find_section_none(ss.skip(1), name);
    }
}

} // verus!
