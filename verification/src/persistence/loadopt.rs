//! The `Boot####` load-option layout: Attributes (u32 LE), FilePathListLength
//! (u16 LE), Description (UTF-16LE, NUL-terminated), FilePathList (bytes),
//! OptionalData (bytes); and the `BootOrder` array of u16 LE option numbers.
use vstd::prelude::*;
use vstd::slice::slice_to_vec;
use crate::text::{chars_of_string, string_of};
use crate::persistence::utf16::{encode_utf16, decode_utf16, encode_utf16_exec, decode_utf16_exec,
    lemma_decode_encode, lemma_encode_no_zero};

verus! {

/// LOAD_OPTION_ACTIVE: the entry is eligible to be booted.
pub const LOAD_OPTION_ACTIVE: u32 = 0x0000_0001;

/// A firmware boot option.
#[derive(Clone, Debug, PartialEq, Eq)]
pub struct LoadOption {
    pub attributes: u32,
    pub description: String,
    /// The device-path bytes exactly as they must appear on the medium,
    /// handled opaquely.
    pub file_path_list: Vec<u8>,
    pub optional_data: Vec<u8>,
}

/// The mathematical value of a [`LoadOption`].
pub struct LoadOptionV {
    pub attributes: u32,
    pub description: Seq<char>,
    pub file_path_list: Seq<u8>,
    pub optional_data: Seq<u8>,
}

impl View for LoadOption {
    type V = LoadOptionV;

    open spec fn view(&self) -> LoadOptionV {
        LoadOptionV {
            attributes: self.attributes,
            description: self.description@,
            file_path_list: self.file_path_list@,
            optional_data: self.optional_data@,
        }
    }
}

#[derive(Clone, Copy, Debug, PartialEq, Eq, Structural)]
pub enum LoadOptError {
    Short,
    BadDescription,
    LengthOverflow,
}

/// Little-endian bytes of a u16.
pub open spec fn le16_bytes(u: u16) -> Seq<u8> {
    seq![(u % 256) as u8, (u / 256) as u8]
}

/// Little-endian bytes of a u32.
pub open spec fn le32_bytes(u: u32) -> Seq<u8> {
    seq![(u % 256) as u8, ((u / 256) % 256) as u8, ((u / 65536) % 256) as u8, (u / 16777216) as u8]
}

/// Little-endian bytes of a run of u16 values.
pub open spec fn units_le(us: Seq<u16>) -> Seq<u8>
    decreases us.len(),
{
    if us.len() == 0 {
        seq![]
    } else {
        units_le(us.drop_last()) + le16_bytes(us.last())
    }
}

/// The u16 stored little-endian at `i`.
pub open spec fn le16_at(b: Seq<u8>, i: int) -> u16 {
    (b[i] + 256 * b[i + 1]) as u16
}

/// The u32 stored little-endian at `i`.
pub open spec fn le32_at(b: Seq<u8>, i: int) -> u32 {
    (b[i] + 256 * b[i + 1] + 65536 * b[i + 2] + 16777216 * b[i + 3]) as u32
}

/// The byte layout of a load option.
pub open spec fn encoding(o: LoadOptionV) -> Seq<u8> {
    le32_bytes(o.attributes) + le16_bytes(o.file_path_list.len() as u16) + units_le(
        encode_utf16(o.description),
    ) + seq![0u8, 0u8] + o.file_path_list + o.optional_data
}

/// Position of the first zero u16 unit at or after `i`, stepping by units.
pub open spec fn term_pos(b: Seq<u8>, i: int) -> Option<int>
    decreases b.len() - i,
{
    if i < 0 || i + 2 > b.len() {
        None
    } else if le16_at(b, i) == 0 {
        Some(i)
    } else {
        term_pos(b, i + 2)
    }
}

/// The u16 units stored from `from` up to `to`.
pub open spec fn units_at(b: Seq<u8>, from: int, to: int) -> Seq<u16> {
    Seq::new(((to - from) / 2) as nat, |k: int| le16_at(b, from + 2 * k))
}

/// What decoding a `Boot####` value yields.
pub open spec fn decoding(b: Seq<u8>) -> Result<LoadOptionV, LoadOptError> {
    if b.len() < 6 {
        Err(LoadOptError::Short)
    } else {
        match term_pos(b, 6) {
            None => Err(LoadOptError::BadDescription),
            Some(t) => match decode_utf16(units_at(b, 6, t)) {
                None => Err(LoadOptError::BadDescription),
                Some(d) => {
                    let i = t + 2;
                    let end = i + le16_at(b, 4);
                    if end > usize::MAX {
                        Err(LoadOptError::LengthOverflow)
                    } else if end > b.len() {
                        Err(LoadOptError::Short)
                    } else {
                        Ok(
                            LoadOptionV {
                                attributes: le32_at(b, 0),
                                description: d,
                                file_path_list: b.subrange(i, end),
                                optional_data: b.skip(end),
                            },
                        )
                    }
                },
            },
        }
    }
}

proof fn lemma_units_le(us: Seq<u16>)
    ensures
        units_le(us).len() == 2 * us.len(),
        forall|k: int|
            0 <= k < us.len() ==> units_le(us)[2 * k] == (us[k] % 256) as u8 && units_le(us)[2 * k
                + 1] == (us[k] / 256) as u8,
    decreases us.len(),
{
    if us.len() > 0 {
        lemma_units_le(us.drop_last());
        let a = units_le(us.drop_last());
        assert forall|k: int| 0 <= k < us.len() implies units_le(us)[2 * k] == (us[k] % 256) as u8
            && units_le(us)[2 * k + 1] == (us[k] / 256) as u8 by {
            if k < us.len() - 1 {
                assert(us.drop_last()[k] == us[k]);
            }
        }
    }
}

proof fn lemma_le16(u: u16)
    ensures
        ((u % 256) as u8 + 256 * ((u / 256) as u8)) as u16 == u,
{
    assert(((u % 256) as u8 + 256 * ((u / 256) as u8)) as u16 == u) by (bit_vector);
}

proof fn lemma_le32(u: u32)
    ensures
        ((u % 256) as u8 + 256 * (((u / 256) % 256) as u8) + 65536 * (((u / 65536) % 256) as u8)
            + 16777216 * ((u / 16777216) as u8)) as u32 == u,
{
    assert(((u % 256) as u8 + 256 * (((u / 256) % 256) as u8) + 65536 * (((u / 65536) % 256) as u8)
        + 16777216 * ((u / 16777216) as u8)) as u32 == u) by (bit_vector);
}

proof fn lemma_term_pos(b: Seq<u8>, i: int, t: int)
    requires
        0 <= i <= t,
        (t - i) % 2 == 0,
        t + 2 <= b.len(),
        le16_at(b, t) == 0,
        forall|j: int| i <= j < t && (j - i) % 2 == 0 ==> le16_at(b, j) != 0,
    ensures
        term_pos(b, i) == Some(t),
    decreases t - i,
{
    if i < t {
        lemma_term_pos(b, i + 2, t);
    }
}

/// Decoding an encoded option gives it back, whenever its description holds
/// no NUL character, its file-path list fits the u16 length field, and the
/// whole value fits in memory.
pub proof fn law_load_option_roundtrip(o: LoadOptionV)
    requires
        o.file_path_list.len() <= 0xFFFF,
        forall|i: int| 0 <= i < o.description.len() ==> o.description[i] != '\0',
        encoding(o).len() <= usize::MAX,
    ensures
        decoding(encoding(o)) == Ok::<LoadOptionV, LoadOptError>(o),
{
    let us = encode_utf16(o.description);
    let n: int = us.len() as int;
    let fl = o.file_path_list.len() as u16;
    let b = encoding(o);
    lemma_units_le(us);
    lemma_encode_no_zero(o.description);
    lemma_decode_encode(o.description);
    lemma_le16(fl);
    lemma_le32(o.attributes);
    let a = le32_bytes(o.attributes) + le16_bytes(fl);
    let u = units_le(us);
    assert(b == a + u + seq![0u8, 0u8] + o.file_path_list + o.optional_data);
    assert(b[4] == (fl % 256) as u8 && b[5] == (fl / 256) as u8);
    assert(le16_at(b, 4) == fl);
    assert(le32_at(b, 0) == o.attributes);
    assert forall|k: int| 0 <= k < n implies le16_at(b, 6 + 2 * k) == us[k] by {
        assert(b[6 + 2 * k] == u[2 * k]);
        assert(b[6 + 2 * k + 1] == u[2 * k + 1]);
        lemma_le16(us[k]);
    }
    let t = 6 + 2 * n;
    assert(b[t] == 0 && b[t + 1] == 0);
    assert forall|j: int| 6 <= j < t && (j - 6) % 2 == 0 implies le16_at(b, j) != 0 by {
        let k = (j - 6) / 2;
        assert(j == 6 + 2 * k);
        assert(le16_at(b, 6 + 2 * k) == us[k]);
        assert(us[k] != 0);
    }
    lemma_term_pos(b, 6, t);
    assert(units_at(b, 6, t) =~= us);
    let i = t + 2;
    let end: int = i + o.file_path_list.len();
    assert(b.subrange(i, end) =~= o.file_path_list);
    assert(b.skip(end) =~= o.optional_data);
}

/// The bytes of a `BootOrder` array.
pub open spec fn order_bytes(order: Seq<u16>) -> Seq<u8> {
    units_le(order)
}

/// The option numbers a `BootOrder` value holds: one per whole pair of bytes.
pub open spec fn order_of(b: Seq<u8>) -> Seq<u16> {
    Seq::new((b.len() / 2) as nat, |k: int| le16_at(b, 2 * k))
}

/// Decoding an encoded boot order gives it back.
pub proof fn law_boot_order_roundtrip(order: Seq<u16>)
    ensures
        order_of(order_bytes(order)) == order,
{
    lemma_units_le(order);
    assert forall|k: int| 0 <= k < order.len() implies le16_at(order_bytes(order), 2 * k)
        == order[k] by {
        lemma_le16(order[k]);
    }
    assert(order_of(order_bytes(order)) =~= order);
}

/// A stray trailing byte does not change the decoded boot order.
pub proof fn law_boot_order_ignores_odd_tail(order: Seq<u16>, stray: u8)
    ensures
        order_of(order_bytes(order).push(stray)) == order,
{
    law_boot_order_roundtrip(order);
    lemma_units_le(order);
    let b = order_bytes(order);
    assert forall|k: int| 0 <= k < order.len() implies #[trigger] le16_at(b.push(stray), 2 * k)
        == le16_at(b, 2 * k) by {}
    assert(order_of(b.push(stray)) =~= order_of(b));
}

/// Append the little-endian bytes of `u`.
fn push_le16(out: &mut Vec<u8>, u: u16)
    ensures
        final(out)@ == old(out)@ + le16_bytes(u),
{
    out.push((u % 256) as u8);
    out.push((u / 256) as u8);
    assert(out@ =~= old(out)@ + le16_bytes(u));
}

/// Append bytes.
fn push_bytes(out: &mut Vec<u8>, b: &[u8])
    ensures
        final(out)@ == old(out)@ + b@,
{
    let mut i: usize = 0;
    while i < b.len()
        invariant
            i <= b@.len(),
            out@ == old(out)@ + b@.take(i as int),
        decreases b@.len() - i,
    {
        out.push(b[i]);
        i = i + 1;
        assert(out@ =~= old(out)@ + b@.take(i as int));
    }
    assert(b@.take(b@.len() as int) == b@);
}

/// Append the little-endian bytes of a run of u16 values.
fn push_units(out: &mut Vec<u8>, us: &[u16])
    ensures
        final(out)@ == old(out)@ + units_le(us@),
{
    let mut i: usize = 0;
    while i < us.len()
        invariant
            i <= us@.len(),
            out@ == old(out)@ + units_le(us@.take(i as int)),
        decreases us@.len() - i,
    {
        push_le16(out, us[i]);
        proof {
            assert(us@.take(i + 1).drop_last() == us@.take(i as int));
        }
        i = i + 1;
        assert(out@ =~= old(out)@ + units_le(us@.take(i as int)));
    }
    assert(us@.take(us@.len() as int) == us@);
}

fn read_le16(b: &[u8], i: usize) -> (r: u16)
    requires
        i + 2 <= b@.len(),
    ensures
        r == le16_at(b@, i as int),
{
    (b[i] as u16) + 256 * (b[i + 1] as u16)
}

impl LoadOption {
    /// An active option with the given description and device path.
    pub fn new(description: &str, file_path_list: Vec<u8>) -> (r: LoadOption)
        ensures
            r@ == (LoadOptionV {
                attributes: LOAD_OPTION_ACTIVE,
                description: description@,
                file_path_list: file_path_list@,
                optional_data: seq![],
            }),
    {
        LoadOption {
            attributes: LOAD_OPTION_ACTIVE,
            description: description.to_owned(),
            file_path_list,
            optional_data: Vec::new(),
        }
    }

    /// Serialise to the exact `Boot####` layout. The only failure is a
    /// file-path list longer than the u16 length field can say.
    pub fn encode(&self) -> (r: Result<Vec<u8>, LoadOptError>)
        ensures
            match r {
                Ok(v) => self.file_path_list@.len() <= 0xFFFF && v@ == encoding(self@),
                Err(e) => self.file_path_list@.len() > 0xFFFF && e == LoadOptError::LengthOverflow,
            },
    {
        if self.file_path_list.len() > 0xFFFF {
            return Err(LoadOptError::LengthOverflow);
        }
        let fpl_len = self.file_path_list.len() as u16;
        let a = self.attributes;
        let mut out: Vec<u8> = Vec::new();
        out.push((a % 256) as u8);
        out.push(((a / 256) % 256) as u8);
        out.push(((a / 65536) % 256) as u8);
        out.push((a / 16777216) as u8);
        assert(out@ =~= le32_bytes(a));
        push_le16(&mut out, fpl_len);
        let cs = chars_of_string(&self.description);
        let us = encode_utf16_exec(&cs);
        push_units(&mut out, &us);
        out.push(0);
        out.push(0);
        push_bytes(&mut out, &self.file_path_list);
        push_bytes(&mut out, &self.optional_data);
        assert(out@ =~= encoding(self@));
        Ok(out)
    }

    /// Parse a `Boot####` value. Total over any bytes.
    pub fn decode(buf: &[u8]) -> (r: Result<LoadOption, LoadOptError>)
        ensures
            match r {
                Ok(o) => decoding(buf@) == Ok::<LoadOptionV, LoadOptError>(o@),
                Err(e) => decoding(buf@) == Err::<LoadOptionV, LoadOptError>(e),
            },
    {
        if buf.len() < 6 {
            return Err(LoadOptError::Short);
        }
        let attributes: u32 = (buf[0] as u32) + 256 * (buf[1] as u32) + 65536 * (buf[2] as u32)
            + 16777216 * (buf[3] as u32);
        let fpl_len = read_le16(buf, 4) as usize;
        let mut i: usize = 6;
        let mut units: Vec<u16> = Vec::new();
        loop
            invariant
                6 <= i <= buf@.len(),
                (i - 6) % 2 == 0,
                units@ == units_at(buf@, 6, i as int),
                term_pos(buf@, 6) == term_pos(buf@, i as int),
            ensures
                6 <= i,
                i + 2 <= buf@.len(),
                le16_at(buf@, i as int) == 0,
                units@ == units_at(buf@, 6, i as int),
                term_pos(buf@, 6) == term_pos(buf@, i as int),
            decreases buf@.len() - i,
        {
            if buf.len() - i < 2 {
                return Err(LoadOptError::BadDescription);
            }
            let u = read_le16(buf, i);
            if u == 0 {
                break;
            }
            units.push(u);
            i = i + 2;
            assert(units@ =~= units_at(buf@, 6, i as int));
        }
        let t = i;
        assert(term_pos(buf@, 6) == Some(t as int));
        let desc = match decode_utf16_exec(&units) {
            Some(cs) => string_of(&cs),
            None => {
                return Err(LoadOptError::BadDescription);
            },
        };
        let i = t + 2;
        if fpl_len > usize::MAX - i {
            return Err(LoadOptError::LengthOverflow);
        }
        let fpl_end = i + fpl_len;
        if fpl_end > buf.len() {
            return Err(LoadOptError::Short);
        }
        let file_path_list = slice_to_vec(slice_subrange(buf, i, fpl_end));
        let optional_data = slice_to_vec(slice_subrange(buf, fpl_end, buf.len()));
        let r = LoadOption { attributes, description: desc, file_path_list, optional_data };
        assert(r@ == decoding(buf@)->Ok_0);
        Ok(r)
    }

    pub fn is_active(&self) -> (r: bool)
        ensures
            r == (self.attributes & LOAD_OPTION_ACTIVE != 0),
    {
        self.attributes & LOAD_OPTION_ACTIVE != 0
    }
}

fn slice_subrange(b: &[u8], from: usize, to: usize) -> (r: &[u8])
    requires
        from <= to <= b@.len(),
    ensures
        r@ == b@.subrange(from as int, to as int),
{
    vstd::slice::slice_subrange(b, from, to)
}

/// Encode a `BootOrder` variable: the u16 option numbers, little-endian.
pub fn encode_boot_order(order: &[u16]) -> (r: Vec<u8>)
    ensures
        r@ == order_bytes(order@),
{
    let mut out: Vec<u8> = Vec::new();
    push_units(&mut out, order);
    assert(out@ =~= order_bytes(order@));
    out
}

/// Decode a `BootOrder` variable. Total; a trailing odd byte is ignored.
pub fn decode_boot_order(buf: &[u8]) -> (r: Vec<u16>)
    ensures
        r@ == order_of(buf@),
{
    let mut out: Vec<u16> = Vec::new();
    let mut k: usize = 0;
    let mut pos: usize = 0;
    let len = buf.len();
    let n = len / 2;
    while k < n
        invariant
            len == buf@.len(),
            n == buf@.len() / 2,
            2 * n <= len,
            k <= n,
            pos == 2 * k,
            out@ == order_of(buf@).take(k as int),
        decreases n - k,
    {
        out.push(read_le16(buf, pos));
        k = k + 1;
        pos = pos + 2;
        assert(out@ =~= order_of(buf@).take(k as int));
    }
    assert(order_of(buf@).take(n as int) =~= order_of(buf@));
    out
}

} // verus!
