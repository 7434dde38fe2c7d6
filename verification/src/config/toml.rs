//! A small reader for the TOML subset the configuration uses: `key = value`
//! pairs, `[section]` and `[[array-of-tables]]` headers, string / integer /
//! boolean values, `#` comments. Total over any input: a malformed line
//! yields an error naming it.
use vstd::prelude::*;
use crate::text::{trim, find_char, lines, starts_with, ends_with, parse_i64, chars_of,
    string_of, trim_chars, find_char_exec, lemma_find_char_props, slice_of, lines_chars, views,
    parse_i64_exec, eq_chars, starts_with_chars, ends_with_chars, chars_of_string};

verus! {

#[derive(Clone, Debug, PartialEq, Eq)]
pub enum Value {
    Str(String),
    Int(i64),
    Bool(bool),
}

pub enum ValueV {
    Str(Seq<char>),
    Int(i64),
    Bool(bool),
}

impl View for Value {
    type V = ValueV;

    open spec fn view(&self) -> ValueV {
        match self {
            Value::Str(s) => ValueV::Str(s@),
            Value::Int(i) => ValueV::Int(*i),
            Value::Bool(b) => ValueV::Bool(*b),
        }
    }
}

impl Value {
    pub fn as_str(&self) -> (r: Option<&str>)
        ensures
            match self@ {
                ValueV::Str(s) => r matches Some(x) && x@ == s,
                _ => r is None,
            },
    {
        match self {
            Value::Str(s) => Some(s.as_str()),
            _ => None,
        }
    }

    pub fn as_int(&self) -> (r: Option<i64>)
        ensures
            match self@ {
                ValueV::Int(i) => r == Some(i),
                _ => r is None,
            },
    {
        match self {
            Value::Int(i) => Some(*i),
            _ => None,
        }
    }

    pub fn as_bool(&self) -> (r: Option<bool>)
        ensures
            match self@ {
                ValueV::Bool(b) => r == Some(b),
                _ => r is None,
            },
    {
        match self {
            Value::Bool(b) => Some(*b),
            _ => None,
        }
    }
}

/// One key/value pair within a table.
#[derive(Clone, Debug, PartialEq, Eq)]
pub struct Pair {
    pub key: String,
    pub value: Value,
}

pub struct PairV {
    pub key: Seq<char>,
    pub value: ValueV,
}

impl View for Pair {
    type V = PairV;

    open spec fn view(&self) -> PairV {
        PairV { key: self.key@, value: self.value@ }
    }
}

pub open spec fn pairs_view(s: Seq<Pair>) -> Seq<PairV> {
    s.map_values(|p: Pair| p@)
}

/// The value of the first pair with `key`.
pub open spec fn lookup(s: Seq<PairV>, key: Seq<char>) -> Option<ValueV>
    decreases s.len(),
{
    if s.len() == 0 {
        None
    } else if s[0].key == key {
        Some(s[0].value)
    } else {
        lookup(s.drop_first(), key)
    }
}

/// A named table (`[section]`) or an element of an array of tables (`[[x]]`).
#[derive(Clone, Debug, PartialEq, Eq)]
pub struct Table {
    pub name: String,
    pub array_element: bool,
    pub pairs: Vec<Pair>,
}

pub struct TableV {
    pub name: Seq<char>,
    pub array_element: bool,
    pub pairs: Seq<PairV>,
}

impl View for Table {
    type V = TableV;

    open spec fn view(&self) -> TableV {
        TableV { name: self.name@, array_element: self.array_element, pairs: pairs_view(self.pairs@) }
    }
}

pub open spec fn tables_view(s: Seq<Table>) -> Seq<TableV> {
    s.map_values(|t: Table| t@)
}

/// Look up `key` among some pairs: the first pair carrying it.
fn find_pair<'a>(pairs: &'a Vec<Pair>, key: &str) -> (r: Option<&'a Value>)
    ensures
        match lookup(pairs_view(pairs@), key@) {
            Some(v) => r matches Some(x) && x@ == v,
            None => r is None,
        },
{
    let k = key.to_owned();
    let mut i: usize = 0;
    let ghost ps = pairs_view(pairs@);
    assert(ps.skip(0) == ps);
    while i < pairs.len()
        invariant
            i <= pairs@.len(),
            ps == pairs_view(pairs@),
            k@ == key@,
            lookup(ps, key@) == lookup(ps.skip(i as int), key@),
        decreases pairs@.len() - i,
    {
        assert(ps.skip(i as int)[0] == pairs@[i as int]@);
        if pairs[i].key == k {
            return Some(&pairs[i].value);
        }
        assert(ps.skip(i as int).drop_first() == ps.skip(i + 1));
        i = i + 1;
    }
    assert(ps.skip(i as int).len() == 0);
    None
}

impl Table {
    pub fn get(&self, key: &str) -> (r: Option<&Value>)
        ensures
            match lookup(self@.pairs, key@) {
                Some(v) => r matches Some(x) && x@ == v,
                None => r is None,
            },
    {
        find_pair(&self.pairs, key)
    }
}

/// The parsed document: a root table plus named sub-tables, in file order.
#[derive(Clone, Debug, PartialEq, Eq)]
pub struct Document {
    pub root: Vec<Pair>,
    pub tables: Vec<Table>,
}

pub struct DocV {
    pub root: Seq<PairV>,
    pub tables: Seq<TableV>,
}

impl View for Document {
    type V = DocV;

    open spec fn view(&self) -> DocV {
        DocV { root: pairs_view(self.root@), tables: tables_view(self.tables@) }
    }
}

/// The tables named `name`, in file order.
pub open spec fn named(ts: Seq<TableV>, name: Seq<char>) -> Seq<TableV>
    decreases ts.len(),
{
    if ts.len() == 0 {
        seq![]
    } else if ts.last().name == name {
        named(ts.drop_last(), name).push(ts.last())
    } else {
        named(ts.drop_last(), name)
    }
}

impl Document {
    pub fn new() -> (r: Document)
        ensures
            r@.root.len() == 0,
            r@.tables.len() == 0,
    {
        Document { root: Vec::new(), tables: Vec::new() }
    }

    /// All tables (array element or single) with the given name, in file
    /// order.
    pub fn tables_named(&self, name: &str) -> (r: Vec<&Table>)
        ensures
            r@.len() == named(self@.tables, name@).len(),
            forall|i: int| 0 <= i < r@.len() ==> r@[i]@ == named(self@.tables, name@)[i],
    {
        let n = name.to_owned();
        let ghost ts = self@.tables;
        let mut out: Vec<&Table> = Vec::new();
        let mut i: usize = 0;
        while i < self.tables.len()
            invariant
                i <= self.tables@.len(),
                ts == self@.tables,
                n@ == name@,
                out@.len() == named(ts.take(i as int), name@).len(),
                forall|j: int| 0 <= j < out@.len() ==> out@[j]@ == named(ts.take(i as int), name@)[j],
            decreases self.tables@.len() - i,
        {
            assert(ts.take(i + 1).drop_last() == ts.take(i as int));
            assert(ts.take(i + 1).last() == self.tables@[i as int]@);
            if self.tables[i].name == n {
                out.push(&self.tables[i]);
            }
            i = i + 1;
        }
        assert(ts.take(i as int) == ts);
        out
    }

    pub fn root_get(&self, key: &str) -> (r: Option<&Value>)
        ensures
            match lookup(self@.root, key@) {
                Some(v) => r matches Some(x) && x@ == v,
                None => r is None,
            },
    {
        find_pair(&self.root, key)
    }
}

#[derive(Debug, PartialEq, Eq)]
pub struct ParseError {
    pub line: usize,
    pub msg: &'static str,
}

/// The error of a line: its 1-based number and what is wrong.
pub struct ParseErrorV {
    pub line: int,
    pub msg: Seq<char>,
}

/// Where a `#` outside a quoted string starts a comment.
pub open spec fn comment_at(l: Seq<char>, i: int, in_str: bool) -> Option<int>
    decreases l.len() - i,
{
    if i < 0 || i >= l.len() {
        None
    } else if l[i] == '"' {
        comment_at(l, i + 1, !in_str)
    } else if l[i] == '#' && !in_str {
        Some(i)
    } else {
        comment_at(l, i + 1, in_str)
    }
}

/// The line without its comment.
pub open spec fn strip_comment(l: Seq<char>) -> Seq<char> {
    match comment_at(l, 0, false) {
        Some(i) => l.take(i),
        None => l,
    }
}

/// What an escape `\c` stands for.
pub open spec fn escape_of(c: char) -> Seq<char> {
    if c == '\\' {
        seq!['\\']
    } else if c == '"' {
        seq!['"']
    } else if c == 'n' {
        seq!['\n']
    } else if c == 't' {
        seq!['\t']
    } else {
        seq!['\\', c]
    }
}

/// The text of a quoted string's inside: `\\`, `\"`, `\n`, `\t` are
/// escapes; any other backslash stays as it is.
pub open spec fn unescape(s: Seq<char>) -> Seq<char>
    decreases s.len(),
{
    if s.len() == 0 {
        seq![]
    } else if s[0] == '\\' {
        if s.len() == 1 {
            seq!['\\']
        } else {
            escape_of(s[1]) + unescape(s.skip(2))
        }
    } else {
        seq![s[0]] + unescape(s.drop_first())
    }
}

/// The value a value text denotes, if any.
pub open spec fn value_of(v: Seq<char>) -> Option<ValueV> {
    if v.len() >= 2 && v[0] == '"' && v.last() == '"' {
        Some(ValueV::Str(unescape(v.subrange(1, v.len() - 1))))
    } else if v == "true"@ {
        Some(ValueV::Bool(true))
    } else if v == "false"@ {
        Some(ValueV::Bool(false))
    } else {
        match parse_i64(v) {
            Some(n) => Some(ValueV::Int(n as i64)),
            None => None,
        }
    }
}

/// A `key = value` line split at its first `=`, both sides trimmed and
/// non-empty.
pub open spec fn kv_of(line: Seq<char>) -> Option<(Seq<char>, Seq<char>)> {
    match find_char(line, '=') {
        None => None,
        Some(e) => {
            let k = trim(line.take(e));
            let v = trim(line.skip(e + 1));
            if k.len() == 0 || v.len() == 0 {
                None
            } else {
                Some((k, v))
            }
        },
    }
}

/// `doc` with one more pair, in the last table opened, or the root before
/// any table.
pub open spec fn add_pair(doc: DocV, p: PairV) -> DocV {
    if doc.tables.len() == 0 {
        DocV { root: doc.root.push(p), ..doc }
    } else {
        let t = doc.tables.last();
        DocV {
            tables: doc.tables.update(
                doc.tables.len() - 1,
                TableV { pairs: t.pairs.push(p), ..t },
            ),
            ..doc
        }
    }
}

/// `doc` with a new empty table.
pub open spec fn open_table(doc: DocV, name: Seq<char>, array_element: bool) -> DocV {
    DocV { tables: doc.tables.push(TableV { name, array_element, pairs: seq![] }), ..doc }
}

/// One line's effect on the document; `n` is its 0-based index.
pub open spec fn step(doc: DocV, raw: Seq<char>, n: int) -> Result<DocV, ParseErrorV> {
    let line = trim(strip_comment(raw));
    if line.len() == 0 {
        Ok(doc)
    } else if starts_with(line, "[["@) {
        let rest = line.skip(2);
        if ends_with(rest, "]]"@) {
            Ok(open_table(doc, trim(rest.take(rest.len() - 2)), true))
        } else {
            Err(ParseErrorV { line: n + 1, msg: "unterminated [[table]]"@ })
        }
    } else if line[0] == '[' {
        let rest = line.drop_first();
        if rest.len() > 0 && rest.last() == ']' {
            Ok(open_table(doc, trim(rest.drop_last()), false))
        } else {
            Err(ParseErrorV { line: n + 1, msg: "unterminated [table]"@ })
        }
    } else {
        match kv_of(line) {
            None => Err(ParseErrorV { line: n + 1, msg: "expected key = value"@ }),
            Some((k, v)) => match value_of(v) {
                None => Err(ParseErrorV { line: n + 1, msg: "bad value"@ }),
                Some(val) => Ok(add_pair(doc, PairV { key: k, value: val })),
            },
        }
    }
}

/// The document from line `i` on, starting from `doc`.
pub open spec fn parse_from(ls: Seq<Seq<char>>, i: int, doc: DocV) -> Result<DocV, ParseErrorV>
    decreases ls.len() - i,
{
    if i < 0 || i >= ls.len() {
        Ok(doc)
    } else {
        match step(doc, ls[i], i) {
            Err(e) => Err(e),
            Ok(d) => parse_from(ls, i + 1, d),
        }
    }
}

/// The document a text denotes, or the first offending line.
pub open spec fn parse_doc(input: Seq<char>) -> Result<DocV, ParseErrorV> {
    parse_from(lines(input), 0, DocV { root: seq![], tables: seq![] })
}

fn strip_comment_exec(l: &[char]) -> (r: Vec<char>)
    ensures
        r@ == strip_comment(l@),
{
    let mut in_str = false;
    let mut i: usize = 0;
    while i < l.len()
        invariant
            i <= l@.len(),
            comment_at(l@, 0, false) == comment_at(l@, i as int, in_str),
        decreases l@.len() - i,
    {
        if l[i] == '"' {
            in_str = !in_str;
        } else if l[i] == '#' && !in_str {
            return slice_of(l, 0, i);
        }
        i = i + 1;
    }
    slice_of(l, 0, l.len())
}

fn unescape_exec(s: &[char]) -> (r: Vec<char>)
    ensures
        r@ == unescape(s@),
{
    let mut out: Vec<char> = Vec::new();
    let mut i: usize = 0;
    assert(s@.skip(0) == s@);
    while i < s.len()
        invariant
            i <= s@.len(),
            unescape(s@) == out@ + unescape(s@.skip(i as int)),
        decreases s@.len() - i,
    {
        let ghost t = s@.skip(i as int);
        assert(t[0] == s@[i as int]);
        if s[i] == '\\' {
            if i + 1 == s.len() {
                out.push('\\');
                assert(t.len() == 1);
                i = i + 1;
                assert(s@.skip(i as int).len() == 0);
            } else {
                let c = s[i + 1];
                assert(t[1] == c);
                let ghost before = out@;
                if c == '\\' {
                    out.push('\\');
                } else if c == '"' {
                    out.push('"');
                } else if c == 'n' {
                    out.push('\n');
                } else if c == 't' {
                    out.push('\t');
                } else {
                    out.push('\\');
                    out.push(c);
                }
                assert(out@ =~= before + escape_of(c));
                assert(t.skip(2) =~= s@.skip(i + 2));
                i = i + 2;
            }
        } else {
            let ghost before = out@;
            out.push(s[i]);
            assert(t.drop_first() =~= s@.skip(i + 1));
            assert(out@ =~= before + seq![t[0]]);
            i = i + 1;
        }
    }
    assert(unescape(s@.skip(i as int)) =~= Seq::<char>::empty());
    assert(out@ + Seq::<char>::empty() =~= out@);
    out
}

fn value_of_exec(v: &[char]) -> (r: Option<Value>)
    ensures
        match value_of(v@) {
            Some(x) => r matches Some(y) && y@ == x,
            None => r is None,
        },
{
    let n = v.len();
    if n >= 2 && v[0] == '"' && v[n - 1] == '"' {
        let inner = slice_of(v, 1, n - 1);
        let u = unescape_exec(&inner);
        return Some(Value::Str(string_of(&u)));
    }
    let t = chars_of("true");
    let f = chars_of("false");
    if eq_chars(v, &t) {
        return Some(Value::Bool(true));
    }
    if eq_chars(v, &f) {
        return Some(Value::Bool(false));
    }
    match parse_i64_exec(v) {
        Some(x) => Some(Value::Int(x)),
        None => None,
    }
}

fn kv_of_exec(line: &[char]) -> (r: Option<(Vec<char>, Vec<char>)>)
    ensures
        match kv_of(line@) {
            Some((k, v)) => r matches Some((a, b)) && a@ == k && b@ == v,
            None => r is None,
        },
{
    proof {
        lemma_find_char_props(line@, '=');
    }
    match find_char_exec(line, '=') {
        None => None,
        Some(e) => {
            let n = line.len();
            assert(e < n);
            let left = slice_of(line, 0, e);
            let right = slice_of(line, e + 1, line.len());
            assert(left@ == line@.take(e as int));
            assert(right@ == line@.skip(e + 1));
            let k = trim_chars(&left);
            let v = trim_chars(&right);
            if k.len() == 0 || v.len() == 0 {
                None
            } else {
                Some((k, v))
            }
        },
    }
}

fn add_pair_exec(doc: &mut Document, p: Pair)
    ensures
        final(doc)@ == add_pair(old(doc)@, p@),
{
    if doc.tables.len() == 0 {
        doc.root.push(p);
        assert(doc@.root =~= pairs_view(old(doc).root@).push(p@));
    } else {
        let mut t = doc.tables.pop().unwrap();
        let ghost tv = t@;
        t.pairs.push(p);
        assert(t@.pairs =~= tv.pairs.push(p@));
        doc.tables.push(t);
        assert(doc@.tables =~= tables_view(old(doc).tables@).update(
            old(doc).tables@.len() - 1,
            TableV { pairs: tv.pairs.push(p@), ..tv },
        ));
    }
}

fn open_table_exec(doc: &mut Document, name: &[char], array_element: bool)
    ensures
        final(doc)@ == open_table(old(doc)@, name@, array_element),
{
    let t = Table { name: string_of(name), array_element, pairs: Vec::new() };
    doc.tables.push(t);
    assert(t@.pairs =~= Seq::<PairV>::empty());
    assert(doc@.tables =~= tables_view(old(doc).tables@).push(t@));
}

/// Parse a TOML-subset document. Total; reports the first offending line.
pub fn parse(input: &str) -> (r: Result<Document, ParseError>)
    ensures
        match r {
            Ok(d) => parse_doc(input@) == Ok::<DocV, ParseErrorV>(d@),
            Err(e) => parse_doc(input@) == Err::<DocV, ParseErrorV>(
                ParseErrorV { line: e.line as int, msg: e.msg@ },
            ),
        },
{
    proof {
        reveal_strlit("[[");
        reveal_strlit("]]");
        reveal_strlit("true");
        reveal_strlit("false");
    }
    let cs = chars_of(input);
    let ls = lines_chars(&cs);
    let ghost all = views(ls@);
    let mut doc = Document::new();
    assert(doc@.root =~= Seq::<PairV>::empty());
    assert(doc@.tables =~= Seq::<TableV>::empty());
    let open2 = chars_of("[[");
    let close2 = chars_of("]]");
    let mut i: usize = 0;
    while i < ls.len()
        invariant
            i <= ls@.len(),
            all == views(ls@),
            all == lines(input@),
            open2@ == "[["@,
            close2@ == "]]"@,
            open2@.len() == 2,
            close2@.len() == 2,
            parse_doc(input@) == parse_from(all, i as int, doc@),
        decreases ls@.len() - i,
    {
        let raw = &ls[i];
        assert(raw@ == all[i as int]);
        let sc = strip_comment_exec(raw.as_slice());
        let line = trim_chars(&sc);
        if line.len() == 0 {
        } else if starts_with_chars(&line, &open2) {
            let rest = slice_of(&line, 2, line.len());
            assert(rest@ == line@.skip(2));
            if ends_with_chars(&rest, &close2) {
                let inner = slice_of(&rest, 0, rest.len() - 2);
                assert(inner@ == rest@.take(rest@.len() - 2));
                let name = trim_chars(&inner);
                open_table_exec(&mut doc, &name, true);
            } else {
                return Err(ParseError { line: i + 1, msg: "unterminated [[table]]" });
            }
        } else if line[0] == '[' {
            let rest = slice_of(&line, 1, line.len());
            assert(rest@ == line@.drop_first());
            if rest.len() > 0 && rest[rest.len() - 1] == ']' {
                let inner = slice_of(&rest, 0, rest.len() - 1);
                assert(inner@ == rest@.drop_last());
                let name = trim_chars(&inner);
                open_table_exec(&mut doc, &name, false);
            } else {
                return Err(ParseError { line: i + 1, msg: "unterminated [table]" });
            }
        } else {
            match kv_of_exec(&line) {
                None => {
                    return Err(ParseError { line: i + 1, msg: "expected key = value" });
                },
                Some((k, v)) => match value_of_exec(&v) {
                    None => {
                        return Err(ParseError { line: i + 1, msg: "bad value" });
                    },
                    Some(val) => {
                        let p = Pair { key: string_of(&k), value: val };
                        add_pair_exec(&mut doc, p);
                    },
                },
            }
        }
        i = i + 1;
    }
    Ok(doc)
}

} // verus!
