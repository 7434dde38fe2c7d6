//! A small JSON reader for the subset the NixOS bootspec uses (objects,
//! arrays, strings, numbers, booleans, null). Total over any input.
//!
//! A number is kept as its text, checked against the decimal float grammar;
//! an object keeps its members sorted by key, each key once (a later member
//! replaces an earlier one with the same key).
use vstd::prelude::*;
use vstd::utf8::{valid_first_scalar, length_of_first_scalar, decode_first_scalar, decode_first_codepoint, length_of_first_codepoint};
use crate::text::{text_lt, text_lt_exec, chars_of, chars_of_string, string_of, push_char,
    char_from_u32, str_eq};

verus! {

#[derive(Debug)]
pub enum Json {
    Null,
    Bool(bool),
    /// A number, as its text.
    Num(String),
    Str(String),
    Arr(Vec<Json>),
    /// Members sorted by key, each key once.
    Obj(Vec<(String, Json)>),
}

pub enum JsonV {
    Null,
    Bool(bool),
    Num(Seq<char>),
    Str(Seq<char>),
    Arr(Seq<JsonV>),
    Obj(Seq<(Seq<char>, JsonV)>),
}

pub open spec fn json_view(j: Json) -> JsonV
    decreases j,
{
    match j {
        Json::Null => JsonV::Null,
        Json::Bool(b) => JsonV::Bool(b),
        Json::Num(s) => JsonV::Num(s@),
        Json::Str(s) => JsonV::Str(s@),
        Json::Arr(v) => JsonV::Arr(
            Seq::new(v@.len(), |i: int| if 0 <= i < v@.len() { json_view(v@[i]) } else { JsonV::Null }),
        ),
        Json::Obj(v) => JsonV::Obj(
            Seq::new(
                v@.len(),
                |i: int|
                    if 0 <= i < v@.len() {
                        (v@[i].0@, json_view(v@[i].1))
                    } else {
                        (Seq::empty(), JsonV::Null)
                    },
            ),
        ),
    }
}

impl View for Json {
    type V = JsonV;

    open spec fn view(&self) -> JsonV {
        json_view(*self)
    }
}

/// The value of member `key`, if the object has one.
pub open spec fn member(m: Seq<(Seq<char>, JsonV)>, key: Seq<char>) -> Option<JsonV>
    decreases m.len(),
{
    if m.len() == 0 {
        None
    } else if m[0].0 == key {
        Some(m[0].1)
    } else {
        member(m.drop_first(), key)
    }
}

/// `j[key]` for an object, `None` otherwise.
pub open spec fn json_get(j: JsonV, key: Seq<char>) -> Option<JsonV> {
    match j {
        JsonV::Obj(m) => member(m, key),
        _ => None,
    }
}

/// Follow a path of keys through nested objects.
pub open spec fn json_path(j: JsonV, keys: Seq<Seq<char>>) -> Option<JsonV>
    decreases keys.len(),
{
    if keys.len() == 0 {
        Some(j)
    } else {
        match json_get(j, keys[0]) {
            Some(n) => json_path(n, keys.drop_first()),
            None => None,
        }
    }
}

impl Json {
    pub fn as_str(&self) -> (r: Option<&str>)
        ensures
            match self@ {
                JsonV::Str(s) => r matches Some(x) && x@ == s,
                _ => r is None,
            },
    {
        match self {
            Json::Str(s) => Some(s.as_str()),
            _ => None,
        }
    }

    pub fn as_array(&self) -> (r: Option<&[Json]>)
        ensures
            match self@ {
                JsonV::Arr(a) => r matches Some(x) && x@.len() == a.len() && forall|i: int|
                    0 <= i < a.len() ==> (#[trigger] x@[i])@ == a[i],
                _ => r is None,
            },
    {
        match self {
            Json::Arr(a) => Some(a.as_slice()),
            _ => None,
        }
    }

    /// The member `key` of an object.
    pub fn get(&self, key: &str) -> (r: Option<&Json>)
        ensures
            match json_get(self@, key@) {
                Some(v) => r matches Some(x) && x@ == v,
                None => r is None,
            },
    {
        match self {
            Json::Obj(m) => {
                let ghost mv = match self@ {
                    JsonV::Obj(mv) => mv,
                    _ => Seq::empty(),
                };
                let mut i: usize = 0;
                assert(mv.skip(0) == mv);
                while i < m.len()
                    invariant
                        i <= m@.len(),
                        mv.len() == m@.len(),
                        forall|k: int| 0 <= k < m@.len() ==> mv[k].0 == (#[trigger] m@[k]).0@ && mv[k].1 == m@[k].1@,
                        member(mv, key@) == member(mv.skip(i as int), key@),
                        self@ == JsonV::Obj(mv),
                    decreases m@.len() - i,
                {
                    assert(mv.skip(i as int)[0] == mv[i as int]);
                    if str_eq(m[i].0.as_str(), key) {
                        assert(mv[i as int].1 == m@[i as int].1@);
                        assert(member(mv.skip(i as int), key@) == Some(mv[i as int].1));
                        assert(json_get(self@, key@) == Some(mv[i as int].1));
                        return Some(&m[i].1);
                    }
                    assert(mv.skip(i as int).drop_first() == mv.skip(i + 1));
                    i = i + 1;
                }
                assert(mv.skip(i as int).len() == 0);
                None
            },
            _ => None,
        }
    }

    /// Navigate nested objects by a path of keys.
    pub fn path(&self, keys: &[&str]) -> (r: Option<&Json>)
        ensures
            match json_path(self@, keys@.map_values(|k: &str| k@)) {
                Some(v) => r matches Some(x) && x@ == v,
                None => r is None,
            },
    {
        let ghost ks = keys@.map_values(|k: &str| k@);
        let mut cur = self;
        let mut i: usize = 0;
        assert(ks.skip(0) == ks);
        while i < keys.len()
            invariant
                i <= keys@.len(),
                ks == keys@.map_values(|k: &str| k@),
                json_path(self@, ks) == json_path(cur@, ks.skip(i as int)),
            decreases keys@.len() - i,
        {
            assert(ks.skip(i as int)[0] == keys@[i as int]@);
            assert(ks.skip(i as int).drop_first() == ks.skip(i + 1));
            match cur.get(keys[i]) {
                Some(n) => {
                    cur = n;
                },
                None => {
                    return None;
                },
            }
            i = i + 1;
        }
        assert(ks.skip(i as int).len() == 0);
        Some(cur)
    }
}

#[derive(Debug, PartialEq, Eq)]
pub struct JsonError;

// ---------------------------------------------------------------------------
// The grammar, over the document's bytes
// ---------------------------------------------------------------------------

pub open spec fn is_ws_byte(c: u8) -> bool {
    c == 32 || c == 9 || c == 10 || c == 13
}

/// The first position at or after `i` that is not whitespace.
pub open spec fn ws_end(b: Seq<u8>, i: int) -> int
    decreases b.len() - i,
{
    if 0 <= i < b.len() && is_ws_byte(b[i]) {
        ws_end(b, i + 1)
    } else {
        i
    }
}

pub open spec fn is_digit_byte(c: u8) -> bool {
    48 <= c <= 57
}

pub open spec fn hex_val(d: u8) -> Option<u32> {
    if 48 <= d <= 57 {
        Some((d - 48) as u32)
    } else if 97 <= d <= 102 {
        Some((d - 97 + 10) as u32)
    } else if 65 <= d <= 70 {
        Some((d - 65 + 10) as u32)
    } else {
        None
    }
}

/// The value of four hex digits at `i`.
pub open spec fn hex4(b: Seq<u8>, i: int) -> Option<u32> {
    if 0 <= i && i + 4 <= b.len() && hex_val(b[i]) is Some && hex_val(b[i + 1]) is Some
        && hex_val(b[i + 2]) is Some && hex_val(b[i + 3]) is Some {
        Some(
            (((hex_val(b[i])->0 * 16 + hex_val(b[i + 1])->0) * 16 + hex_val(b[i + 2])->0) * 16
                + hex_val(b[i + 3])->0) as u32,
        )
    } else {
        None
    }
}

/// The character a `\u` escape denotes: a surrogate becomes U+FFFD.
pub open spec fn unicode_char(cp: u32) -> char {
    if 0xD800 <= cp <= 0xDFFF || cp > 0x10FFFF {
        '\u{FFFD}'
    } else {
        cp as char
    }
}

/// The character a two-byte escape denotes.
pub open spec fn escape_char(c: u8) -> Option<char> {
    if c == 34 {
        Some('"')
    } else if c == 92 {
        Some('\\')
    } else if c == 47 {
        Some('/')
    } else if c == 110 {
        Some('\n')
    } else if c == 116 {
        Some('\t')
    } else if c == 114 {
        Some('\r')
    } else {
        None
    }
}

/// A string's text from `i` (just after the opening quote) and the
/// position after its closing quote. Outside escapes the bytes are UTF-8
/// text, kept as the characters they encode; a malformed sequence makes the
/// string invalid.
pub open spec fn str_body(b: Seq<u8>, i: int) -> Option<(Seq<char>, int)>
    decreases b.len() - i,
{
    if i < 0 || i >= b.len() {
        None
    } else if b[i] == 34 {
        Some((seq![], i + 1))
    } else if b[i] == 92 {
        if i + 1 >= b.len() {
            None
        } else if b[i + 1] == 117 {
            match hex4(b, i + 2) {
                None => None,
                Some(cp) => match str_body(b, i + 6) {
                    Some((t, e)) => Some((seq![unicode_char(cp)] + t, e)),
                    None => None,
                },
            }
        } else {
            match escape_char(b[i + 1]) {
                None => None,
                Some(c) => match str_body(b, i + 2) {
                    Some((t, e)) => Some((seq![c] + t, e)),
                    None => None,
                },
            }
        }
    } else {
        let rest = b.subrange(i, b.len() as int);
        if valid_first_scalar(rest) {
            match str_body(b, i + length_of_first_scalar(rest)) {
                Some((t, e)) => Some((seq![decode_first_scalar(rest) as char] + t, e)),
                None => None,
            }
        } else {
            None
        }
    }
}

pub open spec fn string_at(b: Seq<u8>, i: int) -> Option<(Seq<char>, int)> {
    if 0 <= i < b.len() && b[i] == 34 {
        str_body(b, i + 1)
    } else {
        None
    }
}

/// Bytes a number may span: digits, `.`, `e`, `E`, `+`, `-`.
pub open spec fn is_num_byte(c: u8) -> bool {
    is_digit_byte(c) || c == 46 || c == 101 || c == 69 || c == 43 || c == 45
}

pub open spec fn num_end(b: Seq<u8>, i: int) -> int
    decreases b.len() - i,
{
    if 0 <= i < b.len() && is_num_byte(b[i]) {
        num_end(b, i + 1)
    } else {
        i
    }
}

pub open spec fn digits_end(t: Seq<u8>, i: int) -> int
    decreases t.len() - i,
{
    if 0 <= i < t.len() && is_digit_byte(t[i]) {
        digits_end(t, i + 1)
    } else {
        i
    }
}

/// The decimal float grammar (`f64::from_str` on these characters): an
/// optional sign, digits with an optional fraction (at least one digit in
/// all), then an optional exponent `e`/`E`, optional sign, digits.
pub open spec fn float_text_ok(t: Seq<u8>) -> bool {
    let s = if t.len() > 0 && (t[0] == 43 || t[0] == 45) {
        1int
    } else {
        0int
    };
    let a = digits_end(t, s);
    let b = if a < t.len() && t[a] == 46 {
        digits_end(t, a + 1)
    } else {
        a
    };
    let frac = if a < t.len() && t[a] == 46 {
        b - a - 1
    } else {
        0
    };
    &&& (a - s) + frac > 0
    &&& (b == t.len() || ({
        let c = if b + 1 < t.len() && (t[b + 1] == 43 || t[b + 1] == 45) {
            b + 2
        } else {
            b + 1
        };
        (t[b] == 101 || t[b] == 69) && digits_end(t, c) > c && digits_end(t, c) == t.len()
    }))
}

/// The characters of ASCII bytes.
pub open spec fn ascii_text(t: Seq<u8>) -> Seq<char> {
    t.map_values(|c: u8| (c as u32) as char)
}

pub open spec fn number_at(b: Seq<u8>, i: int) -> Option<(JsonV, int)> {
    let j = if 0 <= i < b.len() && b[i] == 45 {
        i + 1
    } else {
        i
    };
    let e = num_end(b, j);
    if 0 <= i <= e <= b.len() && float_text_ok(b.subrange(i, e)) {
        Some((JsonV::Num(ascii_text(b.subrange(i, e))), e))
    } else {
        None
    }
}

pub open spec fn word_at(b: Seq<u8>, i: int, w: Seq<u8>) -> bool {
    0 <= i && i + w.len() <= b.len() && b.subrange(i, i + w.len()) == w
}

pub open spec fn literal_at(b: Seq<u8>, i: int) -> Option<(JsonV, int)> {
    if word_at(b, i, seq![116u8, 114, 117, 101]) {
        Some((JsonV::Bool(true), i + 4))
    } else if word_at(b, i, seq![102u8, 97, 108, 115, 101]) {
        Some((JsonV::Bool(false), i + 5))
    } else if word_at(b, i, seq![110u8, 117, 108, 108]) {
        Some((JsonV::Null, i + 4))
    } else {
        None
    }
}

/// Where a member with `key` sits.
pub open spec fn key_pos(m: Seq<(Seq<char>, JsonV)>, key: Seq<char>) -> Option<int>
    decreases m.len(),
{
    if m.len() == 0 {
        None
    } else if m[0].0 == key {
        Some(0)
    } else {
        match key_pos(m.drop_first(), key) {
            Some(p) => Some(p + 1),
            None => None,
        }
    }
}

/// Where a new key goes: before the first member whose key it orders before.
pub open spec fn ins_pos(m: Seq<(Seq<char>, JsonV)>, key: Seq<char>) -> int
    decreases m.len(),
{
    if m.len() == 0 {
        0
    } else if text_lt(key, m[0].0) {
        0
    } else {
        1 + ins_pos(m.drop_first(), key)
    }
}

/// A map insertion: replace the value of an existing key, else add the key
/// in order.
pub open spec fn obj_insert(m: Seq<(Seq<char>, JsonV)>, key: Seq<char>, v: JsonV) -> Seq<
    (Seq<char>, JsonV),
> {
    match key_pos(m, key) {
        Some(p) => m.update(p, (key, v)),
        None => m.insert(ins_pos(m, key), (key, v)),
    }
}

/// A value starting at `i` (after whitespace) and where it ends.
pub open spec fn value_at(b: Seq<u8>, i: int) -> Option<(JsonV, int)>
    decreases b.len() - i, 2int,
{
    let j = ws_end(b, i);
    if i > b.len() || j < i || j >= b.len() {
        None
    } else if b[j] == 123 {
        object_at(b, j)
    } else if b[j] == 91 {
        array_at(b, j)
    } else if b[j] == 34 {
        match string_at(b, j) {
            Some((s, e)) => Some((JsonV::Str(s), e)),
            None => None,
        }
    } else if b[j] == 116 || b[j] == 102 || b[j] == 110 {
        literal_at(b, j)
    } else if b[j] == 45 || is_digit_byte(b[j]) {
        number_at(b, j)
    } else {
        None
    }
}

/// An object starting at its `{`.
pub open spec fn object_at(b: Seq<u8>, j: int) -> Option<(JsonV, int)>
    decreases b.len() - j, 1int,
{
    let k = ws_end(b, j + 1);
    if j < 0 || j >= b.len() || k <= j || k > b.len() {
        None
    } else if k < b.len() && b[k] == 125 {
        Some((JsonV::Obj(seq![]), k + 1))
    } else {
        members_at(b, k, seq![])
    }
}

/// The members of an object from `i` on, after those in `acc`.
pub open spec fn members_at(b: Seq<u8>, i: int, acc: Seq<(Seq<char>, JsonV)>) -> Option<
    (JsonV, int),
>
    decreases b.len() - i, 3int,
{
    let j = ws_end(b, i);
    if i < 0 || i > b.len() || j < i {
        None
    } else {
        match string_at(b, j) {
            None => None,
            Some((key, k)) => {
                let k2 = ws_end(b, k);
                if k2 >= b.len() || k2 + 1 <= i || b[k2] != 58 {
                    None
                } else {
                    match value_at(b, k2 + 1) {
                        None => None,
                        Some((v, m)) => {
                            let acc2 = obj_insert(acc, key, v);
                            let m2 = ws_end(b, m);
                            if m2 + 1 <= i || m2 >= b.len() {
                                None
                            } else if b[m2] == 44 {
                                members_at(b, m2 + 1, acc2)
                            } else if b[m2] == 125 {
                                Some((JsonV::Obj(acc2), m2 + 1))
                            } else {
                                None
                            }
                        },
                    }
                }
            },
        }
    }
}

/// An array starting at its `[`.
pub open spec fn array_at(b: Seq<u8>, j: int) -> Option<(JsonV, int)>
    decreases b.len() - j, 1int,
{
    let k = ws_end(b, j + 1);
    if j < 0 || j >= b.len() || k <= j || k > b.len() {
        None
    } else if k < b.len() && b[k] == 93 {
        Some((JsonV::Arr(seq![]), k + 1))
    } else {
        elements_at(b, k, seq![])
    }
}

/// The elements of an array from `i` on, after those in `acc`.
pub open spec fn elements_at(b: Seq<u8>, i: int, acc: Seq<JsonV>) -> Option<(JsonV, int)>
    decreases b.len() - i, 3int,
{
    if i < 0 || i > b.len() {
        None
    } else {
        match value_at(b, i) {
            None => None,
            Some((v, m)) => {
                let m2 = ws_end(b, m);
                if m2 + 1 <= i || m2 >= b.len() {
                    None
                } else if b[m2] == 44 {
                    elements_at(b, m2 + 1, acc.push(v))
                } else if b[m2] == 93 {
                    Some((JsonV::Arr(acc.push(v)), m2 + 1))
                } else {
                    None
                }
            },
        }
    }
}

/// The value a complete document denotes: one value, surrounded only by
/// whitespace.
pub open spec fn parse_json(b: Seq<u8>) -> Option<JsonV> {
    match value_at(b, ws_end(b, 0)) {
        Some((v, k)) => if ws_end(b, k) == b.len() {
            Some(v)
        } else {
            None
        },
        None => None,
    }
}

// ---------------------------------------------------------------------------
// The reader
// ---------------------------------------------------------------------------

fn ws_end_exec(b: &[u8], i: usize) -> (r: usize)
    requires
        i <= b@.len(),
    ensures
        r as int == ws_end(b@, i as int),
        i <= r <= b@.len(),
{
    let mut j = i;
    while j < b.len() && (b[j] == 32 || b[j] == 9 || b[j] == 10 || b[j] == 13)
        invariant
            i <= j <= b@.len(),
            ws_end(b@, i as int) == ws_end(b@, j as int),
        decreases b@.len() - j,
    {
        j = j + 1;
    }
    j
}

fn hex_val_exec(d: u8) -> (r: Option<u32>)
    ensures
        r == hex_val(d),
{
    if 48 <= d && d <= 57 {
        Some((d - 48) as u32)
    } else if 97 <= d && d <= 102 {
        Some((d - 97 + 10) as u32)
    } else if 65 <= d && d <= 70 {
        Some((d - 65 + 10) as u32)
    } else {
        None
    }
}

fn hex4_exec(b: &[u8], i: usize) -> (r: Option<u32>)
    ensures
        r == hex4(b@, i as int),
{
    if i > b.len() || b.len() - i < 4 {
        return None;
    }
    let a = match hex_val_exec(b[i]) {
        Some(x) => x,
        None => return None,
    };
    let c = match hex_val_exec(b[i + 1]) {
        Some(x) => x,
        None => return None,
    };
    let d = match hex_val_exec(b[i + 2]) {
        Some(x) => x,
        None => return None,
    };
    let e = match hex_val_exec(b[i + 3]) {
        Some(x) => x,
        None => return None,
    };
    Some(((a * 16 + c) * 16 + d) * 16 + e)
}

fn unicode_char_exec(cp: u32) -> (r: char)
    ensures
        r == unicode_char(cp),
{
    match char_from_u32(cp) {
        Some(c) => c,
        None => '\u{FFFD}',
    }
}

fn byte_char(c: u8) -> (r: char)
    ensures
        r == (c as u32) as char,
{
    c as char
}

/// The first UTF-8 scalar of `b` from `i` and its length in bytes, if the
/// bytes there encode one.
fn first_scalar_exec(b: &[u8], i: usize) -> (r: Option<(char, usize)>)
    requires
        i < b@.len(),
    ensures
        match r {
            Some((c, n)) => {
                &&& valid_first_scalar(b@.subrange(i as int, b@.len() as int))
                &&& n as int == length_of_first_scalar(b@.subrange(i as int, b@.len() as int))
                &&& c == decode_first_scalar(b@.subrange(i as int, b@.len() as int)) as char
                &&& i + n <= b@.len()
            },
            None => !valid_first_scalar(b@.subrange(i as int, b@.len() as int)),
        },
{
    let ghost rest = b@.subrange(i as int, b@.len() as int);
    let rem = b.len() - i;
    let b0 = b[i];
    let cp: u32;
    let n: usize;
    if b0 <= 0x7f {
        cp = (b0 & 0x7F) as u32;
        n = 1;
    } else if 0xc0 <= b0 && b0 <= 0xdf {
        if rem < 2 || !(0x80 <= b[i + 1] && b[i + 1] <= 0xbf) {
            return None;
        }
        let b1 = b[i + 1];
        assert(rest[1] == b1);
        cp = (((b0 & 0x1F) as u32) << 6) | ((b1 & 0x3f) as u32);
        n = 2;
        assert(cp <= 0x7ff) by (bit_vector)
            requires
                cp == (((b0 & 0x1F) as u32) << 6) | ((b1 & 0x3f) as u32),
        ;
    } else if 0xe0 <= b0 && b0 <= 0xef {
        if rem < 3 || !(0x80 <= b[i + 1] && b[i + 1] <= 0xbf) || !(0x80 <= b[i + 2] && b[i + 2]
            <= 0xbf) {
            return None;
        }
        let b1 = b[i + 1];
        let b2 = b[i + 2];
        assert(rest[1] == b1 && rest[2] == b2);
        cp = (((b0 & 0x0F) as u32) << 12) | (((b1 & 0x3f) as u32) << 6) | ((b2 & 0x3f) as u32);
        n = 3;
        assert(cp <= 0xffff) by (bit_vector)
            requires
                cp == (((b0 & 0x0F) as u32) << 12) | (((b1 & 0x3f) as u32) << 6) | ((b2
                    & 0x3f) as u32),
        ;
    } else if 0xf0 <= b0 && b0 <= 0xf7 {
        if rem < 4 || !(0x80 <= b[i + 1] && b[i + 1] <= 0xbf) || !(0x80 <= b[i + 2] && b[i + 2]
            <= 0xbf) || !(0x80 <= b[i + 3] && b[i + 3] <= 0xbf) {
            return None;
        }
        let b1 = b[i + 1];
        let b2 = b[i + 2];
        let b3 = b[i + 3];
        assert(rest[1] == b1 && rest[2] == b2 && rest[3] == b3);
        cp = (((b0 & 0x07) as u32) << 18) | (((b1 & 0x3f) as u32) << 12) | (((b2 & 0x3f) as u32)
            << 6) | ((b3 & 0x3f) as u32);
        n = 4;
    } else {
        return None;
    }
    assert(rest[0] == b0);
    assert(cp == decode_first_codepoint(rest));
    assert(n as int == length_of_first_codepoint(rest));
    if (n == 2 && cp < 0x80) || (n == 3 && cp < 0x800) || (n == 4 && (cp < 0x10000 || cp
        > 0x10ffff)) || (0xD800 <= cp && cp <= 0xDFFF) {
        return None;
    }
    match char_from_u32(cp) {
        Some(c) => Some((c, n)),
        None => None,
    }
}

fn str_body_exec(b: &[u8], start: usize) -> (r: Option<(String, usize)>)
    requires
        start <= b@.len(),
    ensures
        match str_body(b@, start as int) {
            Some((t, e)) => r matches Some((s, x)) && s@ == t && x as int == e && x <= b@.len(),
            None => r is None,
        },
{
    let mut out = String::new();
    let mut i = start;
    while i < b.len()
        invariant
            start <= i <= b@.len(),
            str_body(b@, start as int) == match str_body(b@, i as int) {
                Some((t, e)) => Some((out@ + t, e)),
                None => None::<(Seq<char>, int)>,
            },
        decreases b@.len() - i,
    {
        let c = b[i];
        if c == 34 {
            assert(out@ + Seq::<char>::empty() =~= out@);
            return Some((out, i + 1));
        } else if c == 92 {
            if i + 1 >= b.len() {
                return None;
            }
            let d = b[i + 1];
            if d == 117 {
                match hex4_exec(b, i + 2) {
                    None => {
                        return None;
                    },
                    Some(cp) => {
                        let ch = unicode_char_exec(cp);
                        let ghost before = out@;
                        push_char(&mut out, ch);
                        proof {
                            match str_body(b@, i + 6) {
                                Some((t, e)) => {
                                    assert(before + (seq![ch] + t) =~= out@ + t);
                                },
                                None => {},
                            }
                        }
                        if i + 6 > b.len() {
                            return None;
                        }
                        i = i + 6;
                    },
                }
            } else {
                let ch: char = if d == 34 {
                    '"'
                } else if d == 92 {
                    '\\'
                } else if d == 47 {
                    '/'
                } else if d == 110 {
                    '\n'
                } else if d == 116 {
                    '\t'
                } else if d == 114 {
                    '\r'
                } else {
                    return None;
                };
                assert(escape_char(d) == Some(ch));
                let ghost before = out@;
                push_char(&mut out, ch);
                proof {
                    match str_body(b@, i + 2) {
                        Some((t, e)) => {
                            assert(before + (seq![ch] + t) =~= out@ + t);
                        },
                        None => {},
                    }
                }
                i = i + 2;
            }
        } else {
            let (ch, n) = match first_scalar_exec(b, i) {
                Some(x) => x,
                None => {
                    return None;
                },
            };
            let ghost before = out@;
            push_char(&mut out, ch);
            proof {
                match str_body(b@, i + n) {
                    Some((t, e)) => {
                        assert(before + (seq![ch] + t) =~= out@ + t);
                    },
                    None => {},
                }
            }
            i = i + n;
        }
    }
    None
}

fn string_at_exec(b: &[u8], i: usize) -> (r: Option<(String, usize)>)
    requires
        i <= b@.len(),
    ensures
        match string_at(b@, i as int) {
            Some((t, e)) => r matches Some((s, x)) && s@ == t && x as int == e && x <= b@.len(),
            None => r is None,
        },
{
    if i < b.len() && b[i] == 34 {
        str_body_exec(b, i + 1)
    } else {
        None
    }
}

fn digits_end_exec(t: &[u8], i: usize) -> (r: usize)
    requires
        i <= t@.len(),
    ensures
        r as int == digits_end(t@, i as int),
        i <= r <= t@.len(),
{
    let mut j = i;
    while j < t.len() && 48 <= t[j] && t[j] <= 57
        invariant
            i <= j <= t@.len(),
            digits_end(t@, i as int) == digits_end(t@, j as int),
        decreases t@.len() - j,
    {
        j = j + 1;
    }
    j
}

fn float_text_ok_exec(t: &[u8]) -> (r: bool)
    ensures
        r == float_text_ok(t@),
{
    let n = t.len();
    let s: usize = if n > 0 && (t[0] == 43 || t[0] == 45) {
        1
    } else {
        0
    };
    let a = digits_end_exec(t, s);
    let has_frac = a < n && t[a] == 46;
    let b = if has_frac {
        digits_end_exec(t, a + 1)
    } else {
        a
    };
    let frac = if has_frac {
        b - a - 1
    } else {
        0
    };
    if (a - s) + frac == 0 {
        return false;
    }
    if b == n {
        return true;
    }
    let c = if b + 1 < n && (t[b + 1] == 43 || t[b + 1] == 45) {
        b + 2
    } else {
        b + 1
    };
    if !(t[b] == 101 || t[b] == 69) {
        return false;
    }
    let d = digits_end_exec(t, c);
    d > c && d == n
}

fn number_at_exec(b: &[u8], i: usize) -> (r: Option<(Json, usize)>)
    requires
        i < b@.len(),
    ensures
        match number_at(b@, i as int) {
            Some((v, e)) => r matches Some((j, x)) && j@ == v && x as int == e && x <= b@.len(),
            None => r is None,
        },
{
    let mut j = i;
    if b[i] == 45 {
        j = i + 1;
    }
    let mut e = j;
    while e < b.len() && (48 <= b[e] && b[e] <= 57 || b[e] == 46 || b[e] == 101 || b[e] == 69
        || b[e] == 43 || b[e] == 45)
        invariant
            j <= e <= b@.len(),
            num_end(b@, j as int) == num_end(b@, e as int),
        decreases b@.len() - e,
    {
        e = e + 1;
    }
    let t = vstd::slice::slice_subrange(b, i, e);
    if !float_text_ok_exec(t) {
        return None;
    }
    let mut s = String::new();
    let mut k: usize = 0;
    while k < t.len()
        invariant
            k <= t@.len(),
            t@ == b@.subrange(i as int, e as int),
            s@ == ascii_text(t@.take(k as int)),
        decreases t@.len() - k,
    {
        let ch = byte_char(t[k]);
        push_char(&mut s, ch);
        k = k + 1;
        assert(s@ =~= ascii_text(t@.take(k as int)));
    }
    assert(t@.take(k as int) == t@);
    Some((Json::Num(s), e))
}

fn word_at_exec(b: &[u8], i: usize, w: &[u8]) -> (r: bool)
    ensures
        r == word_at(b@, i as int, w@),
{
    let bl = b.len();
    if i > bl || w.len() > bl - i {
        return false;
    }
    let mut k: usize = 0;
    while k < w.len()
        invariant
            bl == b@.len(),
            i + w@.len() <= bl,
            k <= w@.len(),
            forall|x: int| 0 <= x < k ==> b@[i + x] == w@[x],
        decreases w@.len() - k,
    {
        if b[i + k] != w[k] {
            assert(b@.subrange(i as int, i + w@.len())[k as int] != w@[k as int]);
            return false;
        }
        k = k + 1;
    }
    assert(b@.subrange(i as int, i + w@.len()) =~= w@);
    true
}

fn literal_at_exec(b: &[u8], i: usize) -> (r: Option<(Json, usize)>)
    requires
        i < b@.len(),
    ensures
        match literal_at(b@, i as int) {
            Some((v, e)) => r matches Some((j, x)) && j@ == v && x as int == e && x <= b@.len(),
            None => r is None,
        },
{
    let t: [u8; 4] = [116, 114, 117, 101];
    let f: [u8; 5] = [102, 97, 108, 115, 101];
    let n: [u8; 4] = [110, 117, 108, 108];
    assert(t@ == seq![116u8, 114, 117, 101]);
    assert(f@ == seq![102u8, 97, 108, 115, 101]);
    assert(n@ == seq![110u8, 117, 108, 108]);
    let bl = b.len();
    if word_at_exec(b, i, t.as_slice()) {
        assert(i + 4 <= bl);
        Some((Json::Bool(true), i + 4))
    } else if word_at_exec(b, i, f.as_slice()) {
        assert(i + 5 <= bl);
        Some((Json::Bool(false), i + 5))
    } else if word_at_exec(b, i, n.as_slice()) {
        assert(i + 4 <= bl);
        Some((Json::Null, i + 4))
    } else {
        None
    }
}

/// Insert a member, keeping keys sorted and unique.
fn obj_insert_exec(m: &mut Vec<(String, Json)>, key: String, v: Json)
    ensures
        json_view(Json::Obj(*final(m))) == JsonV::Obj(
            obj_insert(
                match json_view(Json::Obj(*old(m))) {
                    JsonV::Obj(mv) => mv,
                    _ => Seq::empty(),
                },
                key@,
                v@,
            ),
        ),
{
    let ghost mv = match json_view(Json::Obj(*m)) {
        JsonV::Obj(mv) => mv,
        _ => Seq::empty(),
    };
    let kc = chars_of_string(&key);
    let mut i: usize = 0;
    assert(mv.skip(0) == mv);
    while i < m.len()
        invariant
            i <= m@.len(),
            *m == *old(m),
            mv.len() == m@.len(),
            forall|k: int| 0 <= k < m@.len() ==> mv[k].0 == (#[trigger] m@[k]).0@ && mv[k].1 == m@[k].1@,
            forall|k: int| 0 <= k < i ==> mv[k].0 != key@,
            kc@ == key@,
            mv == match json_view(Json::Obj(*old(m))) {
                JsonV::Obj(mv) => mv,
                _ => Seq::empty(),
            },
        decreases m@.len() - i,
    {
        if m[i].0 == key {
            proof {
                lemma_key_pos_at(mv, key@, i as int);
            }
            let ghost kv = key@;
            let ghost vv = v@;
            m.set(i, (key, v));
            proof {
                let after = json_view(Json::Obj(*m))->Obj_0;
                assert forall|k: int| 0 <= k < after.len() implies after[k] == mv.update(
                    i as int,
                    (kv, vv),
                )[k] by {
                    if k != i {
                        assert(m@[k] == old(m)@[k]);
                    }
                }
                assert(after =~= mv.update(i as int, (kv, vv)));
                assert(obj_insert(mv, kv, vv) == mv.update(i as int, (kv, vv)));
                assert(json_view(Json::Obj(*m)) == JsonV::Obj(obj_insert(mv, kv, vv)));
            }
            return;
        }
        i = i + 1;
    }
    proof {
        lemma_key_pos_none(mv, key@);
    }
    let mut p: usize = 0;
    while p < m.len()
        invariant
            p <= m@.len(),
            *m == *old(m),
            mv.len() == m@.len(),
            forall|k: int| 0 <= k < m@.len() ==> mv[k].0 == (#[trigger] m@[k]).0@ && mv[k].1 == m@[k].1@,
            forall|k: int| 0 <= k < p ==> !text_lt(key@, #[trigger] mv[k].0),
            kc@ == key@,
        ensures
            p <= m@.len(),
            *m == *old(m),
            forall|k: int| 0 <= k < p ==> !text_lt(key@, #[trigger] mv[k].0),
            p < m@.len() ==> text_lt(key@, mv[p as int].0),
        decreases m@.len() - p,
    {
        let other = chars_of_string(&m[p].0);
        if text_lt_exec(&kc, &other) {
            break;
        }
        p = p + 1;
    }
    proof {
        lemma_ins_pos(mv, key@, p as int);
    }
    let ghost kv = key@;
    let ghost vv = v@;
    m.insert(p, (key, v));
    proof {
        let after = json_view(Json::Obj(*m))->Obj_0;
        assert forall|k: int| 0 <= k < after.len() implies after[k] == mv.insert(
            p as int,
            (kv, vv),
        )[k] by {
            if k < p {
                assert(m@[k] == old(m)@[k]);
            } else if k > p {
                assert(m@[k] == old(m)@[k - 1]);
            }
        }
        assert(after =~= mv.insert(p as int, (kv, vv)));
    }
}

proof fn lemma_key_pos_at(m: Seq<(Seq<char>, JsonV)>, key: Seq<char>, i: int)
    requires
        0 <= i < m.len(),
        m[i].0 == key,
        forall|k: int| 0 <= k < i ==> m[k].0 != key,
    ensures
        key_pos(m, key) == Some(i),
    decreases i,
{
    if i > 0 {
        lemma_key_pos_at(m.drop_first(), key, i - 1);
    }
}

proof fn lemma_key_pos_none(m: Seq<(Seq<char>, JsonV)>, key: Seq<char>)
    requires
        forall|k: int| 0 <= k < m.len() ==> m[k].0 != key,
    ensures
        key_pos(m, key) is None,
    decreases m.len(),
{
    if m.len() > 0 {
        lemma_key_pos_none(m.drop_first(), key);
    }
}

proof fn lemma_ins_pos(m: Seq<(Seq<char>, JsonV)>, key: Seq<char>, p: int)
    requires
        0 <= p <= m.len(),
        forall|k: int| 0 <= k < p ==> !text_lt(key, #[trigger] m[k].0),
        p < m.len() ==> text_lt(key, m[p].0),
    ensures
        ins_pos(m, key) == p,
    decreases m.len(),
{
    if m.len() > 0 && p > 0 {
        assert(!text_lt(key, m[0].0));
        assert forall|k: int| 0 <= k < p - 1 implies !text_lt(key, #[trigger] m.drop_first()[k].0) by {
            assert(m.drop_first()[k] == m[k + 1]);
        }
        lemma_ins_pos(m.drop_first(), key, p - 1);
    }
}

fn value_at_exec(b: &[u8], i: usize) -> (r: Option<(Json, usize)>)
    requires
        i <= b@.len(),
    ensures
        match value_at(b@, i as int) {
            Some((v, e)) => r matches Some((j, x)) && j@ == v && x as int == e && x <= b@.len(),
            None => r is None,
        },
    decreases b@.len() - i, 2int,
{
    let j = ws_end_exec(b, i);
    if j >= b.len() {
        return None;
    }
    let c = b[j];
    if c == 123 {
        object_at_exec(b, j)
    } else if c == 91 {
        array_at_exec(b, j)
    } else if c == 34 {
        match string_at_exec(b, j) {
            Some((s, e)) => Some((Json::Str(s), e)),
            None => None,
        }
    } else if c == 116 || c == 102 || c == 110 {
        literal_at_exec(b, j)
    } else if c == 45 || (48 <= c && c <= 57) {
        number_at_exec(b, j)
    } else {
        None
    }
}

fn object_at_exec(b: &[u8], j: usize) -> (r: Option<(Json, usize)>)
    requires
        j < b@.len(),
    ensures
        match object_at(b@, j as int) {
            Some((v, e)) => r matches Some((x, p)) && x@ == v && p as int == e && p <= b@.len(),
            None => r is None,
        },
    decreases b@.len() - j, 1int,
{
    let n = b.len();
    assert(j < n);
    let k = ws_end_exec(b, j + 1);
    if k < b.len() && b[k] == 125 {
        let m: Vec<(String, Json)> = Vec::new();
        let r = Json::Obj(m);
        assert(r@->Obj_0 =~= Seq::<(Seq<char>, JsonV)>::empty());
        return Some((r, k + 1));
    }
    let acc: Vec<(String, Json)> = Vec::new();
    assert(Json::Obj(acc)@->Obj_0 =~= Seq::<(Seq<char>, JsonV)>::empty());
    members_at_exec(b, k, acc)
}

fn members_at_exec(b: &[u8], i: usize, acc: Vec<(String, Json)>) -> (r: Option<(Json, usize)>)
    requires
        i <= b@.len(),
    ensures
        match members_at(b@, i as int, Json::Obj(acc)@->Obj_0) {
            Some((v, e)) => r matches Some((x, p)) && x@ == v && p as int == e && p <= b@.len(),
            None => r is None,
        },
    decreases b@.len() - i, 3int,
{
    let j = ws_end_exec(b, i);
    let (key, k) = match string_at_exec(b, j) {
        Some(x) => x,
        None => {
            return None;
        },
    };
    let k2 = ws_end_exec(b, k);
    if k2 >= b.len() || k2 + 1 <= i || b[k2] != 58 {
        return None;
    }
    let (v, m) = match value_at_exec(b, k2 + 1) {
        Some(x) => x,
        None => {
            return None;
        },
    };
    let mut acc2 = acc;
    obj_insert_exec(&mut acc2, key, v);
    let m2 = ws_end_exec(b, m);
    if m2 >= b.len() || m2 + 1 <= i {
        return None;
    }
    if b[m2] == 44 {
        members_at_exec(b, m2 + 1, acc2)
    } else if b[m2] == 125 {
        Some((Json::Obj(acc2), m2 + 1))
    } else {
        None
    }
}

fn array_at_exec(b: &[u8], j: usize) -> (r: Option<(Json, usize)>)
    requires
        j < b@.len(),
    ensures
        match array_at(b@, j as int) {
            Some((v, e)) => r matches Some((x, p)) && x@ == v && p as int == e && p <= b@.len(),
            None => r is None,
        },
    decreases b@.len() - j, 1int,
{
    let n = b.len();
    assert(j < n);
    let k = ws_end_exec(b, j + 1);
    if k < b.len() && b[k] == 93 {
        let a: Vec<Json> = Vec::new();
        let r = Json::Arr(a);
        assert(r@->Arr_0 =~= Seq::<JsonV>::empty());
        return Some((r, k + 1));
    }
    let acc: Vec<Json> = Vec::new();
    assert(Json::Arr(acc)@->Arr_0 =~= Seq::<JsonV>::empty());
    elements_at_exec(b, k, acc)
}

fn elements_at_exec(b: &[u8], i: usize, acc: Vec<Json>) -> (r: Option<(Json, usize)>)
    requires
        i <= b@.len(),
    ensures
        match elements_at(b@, i as int, Json::Arr(acc)@->Arr_0) {
            Some((v, e)) => r matches Some((x, p)) && x@ == v && p as int == e && p <= b@.len(),
            None => r is None,
        },
    decreases b@.len() - i, 3int,
{
    let (v, m) = match value_at_exec(b, i) {
        Some(x) => x,
        None => {
            return None;
        },
    };
    let m2 = ws_end_exec(b, m);
    if m2 >= b.len() || m2 + 1 <= i {
        return None;
    }
    let ghost before = Json::Arr(acc)@->Arr_0;
    let mut acc2 = acc;
    acc2.push(v);
    assert(Json::Arr(acc2)@->Arr_0 =~= before.push(v@));
    if b[m2] == 44 {
        elements_at_exec(b, m2 + 1, acc2)
    } else if b[m2] == 93 {
        Some((Json::Arr(acc2), m2 + 1))
    } else {
        None
    }
}

/// Parse a complete JSON document. Total; malformed input yields `Err`.
pub fn parse(input: &str) -> (r: Result<Json, JsonError>)
    ensures
        match parse_json(vstd::utf8::encode_utf8(input@)) {
            Some(v) => r matches Ok(j) && j@ == v,
            None => r is Err,
        },
{
    let b = input.as_bytes();
    let j = ws_end_exec(b, 0);
    match value_at_exec(b, j) {
        Some((v, k)) => {
            let e = ws_end_exec(b, k);
            if e == b.len() {
                Ok(v)
            } else {
                Err(JsonError)
            }
        },
        None => Err(JsonError),
    }
}

} // verus!
