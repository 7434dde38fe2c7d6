//! UTF-16 code units of text, as firmware stores descriptions.
use vstd::prelude::*;
use crate::text::{char_from_u32, lemma_char};

verus! {

/// The UTF-16 code units of one character.
pub open spec fn units_of(c: char) -> Seq<u16> {
    let u = c as u32;
    if u < 0x10000 {
        seq![u as u16]
    } else {
        let v = u - 0x10000;
        seq![(0xD800 + v / 1024) as u16, (0xDC00 + v % 1024) as u16]
    }
}

/// `str::encode_utf16`: the code units of a text.
pub open spec fn encode_utf16(s: Seq<char>) -> Seq<u16>
    decreases s.len(),
{
    if s.len() == 0 {
        seq![]
    } else {
        units_of(s[0]) + encode_utf16(s.drop_first())
    }
}

pub open spec fn is_high_surrogate(u: u16) -> bool {
    0xD800 <= u <= 0xDBFF
}

pub open spec fn is_low_surrogate(u: u16) -> bool {
    0xDC00 <= u <= 0xDFFF
}

/// `String::from_utf16`: the text of some code units, or `None` when a
/// surrogate is unpaired.
pub open spec fn decode_utf16(u: Seq<u16>) -> Option<Seq<char>>
    decreases u.len(),
{
    if u.len() == 0 {
        Some(seq![])
    } else if is_high_surrogate(u[0]) {
        if u.len() >= 2 && is_low_surrogate(u[1]) {
            let c = (((u[0] - 0xD800) * 1024 + (u[1] - 0xDC00) + 0x10000) as u32) as char;
            match decode_utf16(u.skip(2)) {
                Some(rest) => Some(seq![c] + rest),
                None => None,
            }
        } else {
            None
        }
    } else if is_low_surrogate(u[0]) {
        None
    } else {
        match decode_utf16(u.drop_first()) {
            Some(rest) => Some(seq![(u[0] as u32) as char] + rest),
            None => None,
        }
    }
}

proof fn lemma_encode_push(s: Seq<char>, c: char)
    ensures
        encode_utf16(s.push(c)) == encode_utf16(s) + units_of(c),
    decreases s.len(),
{
    if s.len() == 0 {
        assert(s.push(c).drop_first() == s);
        assert(s.push(c)[0] == c);
        assert(encode_utf16(s.push(c)) =~= units_of(c) + encode_utf16(s));
    } else {
        lemma_encode_push(s.drop_first(), c);
        assert(s.push(c).drop_first() == s.drop_first().push(c));
        assert(encode_utf16(s.push(c)) =~= units_of(s[0]) + (encode_utf16(s.drop_first()) + units_of(c)));
    }
}

/// Text without a NUL character encodes to code units without a zero unit.
pub proof fn lemma_encode_no_zero(s: Seq<char>)
    requires
        forall|i: int| 0 <= i < s.len() ==> s[i] != '\0',
    ensures
        forall|k: int| 0 <= k < encode_utf16(s).len() ==> encode_utf16(s)[k] != 0,
    decreases s.len(),
{
    if s.len() > 0 {
        assert forall|i: int| 0 <= i < s.drop_first().len() implies s.drop_first()[i] != '\0' by {
            assert(s.drop_first()[i] == s[i + 1]);
        }
        lemma_encode_no_zero(s.drop_first());
        let h = units_of(s[0]);
        let t = encode_utf16(s.drop_first());
        lemma_char(s[0]);
        lemma_char('\0');
        assert(s[0] as u32 != 0);
        assert forall|k: int| 0 <= k < (h + t).len() implies (h + t)[k] != 0 by {
            if k >= h.len() {
                assert((h + t)[k] == t[k - h.len()]);
            }
        }
    }
}

/// Decoding what encoding produced gives the text back.
pub proof fn lemma_decode_encode(s: Seq<char>)
    ensures
        decode_utf16(encode_utf16(s)) == Some(s),
    decreases s.len(),
{
    if s.len() > 0 {
        lemma_decode_encode(s.drop_first());
        let c = s[0];
        lemma_char(c);
        let u = c as u32;
        let h = units_of(c);
        let t = encode_utf16(s.drop_first());
        let e = h + t;
        assert(encode_utf16(s) == e);
        if u < 0x10000 {
            assert(!(0xD800 <= u <= 0xDFFF));
            assert(e[0] == u as u16);
            assert(e.drop_first() =~= t);
            assert((e[0] as u32) as char == c);
        } else {
            let v = u - 0x10000;
            assert(v <= 0xFFFFF);
            assert(v / 1024 <= 0x3FF) by (nonlinear_arith)
                requires v <= 0xFFFFF;
            assert(v % 1024 < 1024) by (nonlinear_arith);
            assert((v / 1024) * 1024 + v % 1024 == v) by (nonlinear_arith);
            assert(e[0] == (0xD800 + v / 1024) as u16);
            assert(e[1] == (0xDC00 + v % 1024) as u16);
            assert(e.skip(2) =~= t);
            assert(((e[0] - 0xD800) * 1024 + (e[1] - 0xDC00) + 0x10000) == u);
        }
        assert(seq![c] + s.drop_first() =~= s);
    }
}

/// The code units of a text.
pub fn encode_utf16_exec(s: &[char]) -> (r: Vec<u16>)
    ensures
        r@ == encode_utf16(s@),
{
    let mut out: Vec<u16> = Vec::new();
    let mut i: usize = 0;
    while i < s.len()
        invariant
            i <= s@.len(),
            out@ == encode_utf16(s@.take(i as int)),
        decreases s@.len() - i,
    {
        let c = s[i];
        let u = c as u32;
        proof {
            lemma_char(c);
        }
        if u < 0x10000 {
            out.push(u as u16);
        } else {
            let v = u - 0x10000;
            assert(v / 1024 <= 0x3FF) by (nonlinear_arith)
                requires v <= 0xFFFFF;
            out.push((0xD800 + v / 1024) as u16);
            out.push((0xDC00 + v % 1024) as u16);
        }
        proof {
            lemma_encode_push(s@.take(i as int), c);
            assert(s@.take(i + 1) == s@.take(i as int).push(c));
        }
        i = i + 1;
        assert(out@ =~= encode_utf16(s@.take(i as int)));
    }
    assert(s@.take(s@.len() as int) == s@);
    out
}

/// The text of some code units, or `None` when a surrogate is unpaired.
pub fn decode_utf16_exec(u: &[u16]) -> (r: Option<Vec<char>>)
    ensures
        match r {
            Some(v) => decode_utf16(u@) == Some(v@),
            None => decode_utf16(u@) is None,
        },
{
    let mut out: Vec<char> = Vec::new();
    let mut i: usize = 0;
    assert(u@.skip(0) == u@);
    while i < u.len()
        invariant
            i <= u@.len(),
            decode_utf16(u@) == match decode_utf16(u@.skip(i as int)) {
                Some(rest) => Some(out@ + rest),
                None => None::<Seq<char>>,
            },
        decreases u@.len() - i,
    {
        let x = u[i];
        let ghost tail = u@.skip(i as int);
        assert(tail[0] == x);
        if 0xD800 <= x && x <= 0xDBFF {
            if i + 1 < u.len() && 0xDC00 <= u[i + 1] && u[i + 1] <= 0xDFFF {
                let y = u[i + 1];
                assert(tail[1] == y);
                let code: u32 = ((x - 0xD800) as u32) * 1024 + ((y - 0xDC00) as u32) + 0x10000;
                match char_from_u32(code) {
                    Some(c) => {
                        out.push(c);
                        assert(tail.skip(2) =~= u@.skip(i + 2));
                        assert(seq![c] + Seq::<char>::empty() == seq![c]);
                        proof {
                            let ghost o = out@;
                            match decode_utf16(u@.skip(i + 2)) {
                                Some(rest) => {
                                    assert(o.drop_last() + (seq![c] + rest) =~= o + rest);
                                },
                                None => {},
                            }
                        }
                        i = i + 2;
                    },
                    None => {
                        assert(false);
                        return None;
                    },
                }
            } else {
                return None;
            }
        } else if 0xDC00 <= x && x <= 0xDFFF {
            return None;
        } else {
            match char_from_u32(x as u32) {
                Some(c) => {
                    out.push(c);
                    assert(tail.drop_first() =~= u@.skip(i + 1));
                    proof {
                        let ghost o = out@;
                        match decode_utf16(u@.skip(i + 1)) {
                            Some(rest) => {
                                assert(o.drop_last() + (seq![c] + rest) =~= o + rest);
                            },
                            None => {},
                        }
                    }
                    i = i + 1;
                },
                None => {
                    assert(false);
                    return None;
                },
            }
        }
    }
    assert(u@.skip(i as int) =~= Seq::<u16>::empty());
    assert(out@ + Seq::<char>::empty() =~= out@);
    Some(out)
}

/// `String::from_utf16_lossy`: like [`decode_utf16`], with each unpaired
/// surrogate replaced by U+FFFD.
pub open spec fn decode_utf16_lossy(u: Seq<u16>) -> Seq<char>
    decreases u.len(),
{
    if u.len() == 0 {
        seq![]
    } else if is_high_surrogate(u[0]) && u.len() >= 2 && is_low_surrogate(u[1]) {
        let c = (((u[0] - 0xD800) * 1024 + (u[1] - 0xDC00) + 0x10000) as u32) as char;
        seq![c] + decode_utf16_lossy(u.skip(2))
    } else if is_high_surrogate(u[0]) || is_low_surrogate(u[0]) {
        seq!['\u{FFFD}'] + decode_utf16_lossy(u.drop_first())
    } else {
        seq![(u[0] as u32) as char] + decode_utf16_lossy(u.drop_first())
    }
}

/// The text of some code units, unpaired surrogates replaced by U+FFFD.
pub fn decode_utf16_lossy_exec(u: &[u16]) -> (r: Vec<char>)
    ensures
        r@ == decode_utf16_lossy(u@),
{
    let mut out: Vec<char> = Vec::new();
    let mut i: usize = 0;
    assert(u@.skip(0) == u@);
    while i < u.len()
        invariant
            i <= u@.len(),
            decode_utf16_lossy(u@) == out@ + decode_utf16_lossy(u@.skip(i as int)),
        decreases u@.len() - i,
    {
        let x = u[i];
        let ghost tail = u@.skip(i as int);
        assert(tail[0] == x);
        let ghost before = out@;
        if 0xD800 <= x && x <= 0xDBFF && i + 1 < u.len() && 0xDC00 <= u[i + 1] && u[i + 1] <= 0xDFFF {
            let y = u[i + 1];
            assert(tail[1] == y);
            let code: u32 = ((x - 0xD800) as u32) * 1024 + ((y - 0xDC00) as u32) + 0x10000;
            match char_from_u32(code) {
                Some(c) => {
                    out.push(c);
                },
                None => {
                    assert(false);
                },
            }
            assert(tail.skip(2) =~= u@.skip(i + 2));
            i = i + 2;
        } else if 0xD800 <= x && x <= 0xDFFF {
            out.push('\u{FFFD}');
            assert(tail.drop_first() =~= u@.skip(i + 1));
            i = i + 1;
        } else {
            match char_from_u32(x as u32) {
                Some(c) => {
                    out.push(c);
                },
                None => {
                    assert(false);
                },
            }
            assert(tail.drop_first() =~= u@.skip(i + 1));
            i = i + 1;
        }
        assert(before + (seq![out@.last()] + decode_utf16_lossy(u@.skip(i as int))) =~= out@
            + decode_utf16_lossy(u@.skip(i as int)));
    }
    assert(u@.skip(i as int) =~= Seq::<u16>::empty());
    assert(out@ + Seq::<char>::empty() =~= out@);
    out
}

} // verus!
