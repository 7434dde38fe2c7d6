//! Little-endian packed records: a record is a run of unsigned fields of
//! given byte widths, laid out back to back, least significant byte first.
use vstd::prelude::*;

verus! {

/// 256 to the power `w`.
pub open spec fn pow256(w: nat) -> nat
    decreases w,
{
    if w == 0 {
        1
    } else {
        256 * pow256((w - 1) as nat)
    }
}

/// The `w` little-endian bytes of `v`.
pub open spec fn le_bytes(w: nat, v: nat) -> Seq<u8>
    decreases w,
{
    if w == 0 {
        seq![]
    } else {
        seq![(v % 256) as u8] + le_bytes((w - 1) as nat, v / 256)
    }
}

/// The number little-endian bytes `s` hold.
pub open spec fn le_value(s: Seq<u8>) -> nat
    decreases s.len(),
{
    if s.len() == 0 {
        0
    } else {
        s[0] as nat + 256 * le_value(s.drop_first())
    }
}

/// The summed widths of a run of fields.
pub open spec fn total(ws: Seq<usize>) -> nat
    decreases ws.len(),
{
    if ws.len() == 0 {
        0
    } else {
        total(ws.drop_last()) + ws.last() as nat
    }
}

/// The bytes of a record with field widths `ws` and values `vs`.
pub open spec fn fields_bytes(ws: Seq<usize>, vs: Seq<u64>) -> Seq<u8>
    decreases ws.len(),
{
    if ws.len() == 0 || vs.len() == 0 {
        seq![]
    } else {
        fields_bytes(ws.drop_last(), vs.drop_last()) + le_bytes(ws.last() as nat, vs.last() as nat)
    }
}

/// The field values of a record with widths `ws` read from the start of `b`.
pub open spec fn fields_at(b: Seq<u8>, ws: Seq<usize>) -> Seq<u64>
    decreases ws.len(),
{
    if ws.len() == 0 {
        seq![]
    } else {
        fields_at(b, ws.drop_last()).push(
            le_value(b.subrange(total(ws.drop_last()) as int, total(ws) as int)) as u64,
        )
    }
}

/// Every value fits its field.
pub open spec fn fits(ws: Seq<usize>, vs: Seq<u64>) -> bool {
    &&& ws.len() == vs.len()
    &&& forall|i: int| 0 <= i < ws.len() ==> (#[trigger] vs[i]) < pow256(ws[i] as nat)
}

pub proof fn lemma_le_roundtrip(w: nat, v: nat)
    requires
        v < pow256(w),
    ensures
        le_bytes(w, v).len() == w,
        le_value(le_bytes(w, v)) == v,
    decreases w,
{
    if w > 0 {
        let p = pow256((w - 1) as nat);
        assert(v / 256 < p) by (nonlinear_arith)
            requires
                v < 256 * p,
        ;
        lemma_le_roundtrip((w - 1) as nat, v / 256);
        let s = le_bytes(w, v);
        assert(s.drop_first() =~= le_bytes((w - 1) as nat, v / 256));
        assert(v == v % 256 + 256 * (v / 256)) by (nonlinear_arith);
    }
}

pub proof fn lemma_le_bound(s: Seq<u8>)
    ensures
        le_value(s) < pow256(s.len()),
    decreases s.len(),
{
    if s.len() > 0 {
        lemma_le_bound(s.drop_first());
        let p = pow256((s.len() - 1) as nat);
        let r = le_value(s.drop_first());
        assert(s[0] as nat + 256 * r < 256 * p) by (nonlinear_arith)
            requires
                r < p,
                s[0] < 256,
        ;
    }
}

pub proof fn lemma_pow256_small(w: nat)
    requires
        w <= 8,
    ensures
        pow256(w) <= 0x1_0000_0000_0000_0000,
        pow256(w) >= 1,
    decreases w,
{
    reveal_with_fuel(pow256, 9);
}

/// Reading back what was written gives the values, whatever follows.
pub proof fn lemma_fields_roundtrip(ws: Seq<usize>, vs: Seq<u64>, rest: Seq<u8>)
    requires
        fits(ws, vs),
    ensures
        fields_bytes(ws, vs).len() == total(ws),
        fields_at(fields_bytes(ws, vs) + rest, ws) == vs,
    decreases ws.len(),
{
    if ws.len() > 0 {
        let wp = ws.drop_last();
        let vp = vs.drop_last();
        let last = le_bytes(ws.last() as nat, vs.last() as nat);
        assert(fits(wp, vp)) by {
            assert forall|i: int| 0 <= i < wp.len() implies (#[trigger] vp[i]) < pow256(wp[i] as nat) by {
                assert(vs[i] < pow256(ws[i] as nat));
            }
        }
        assert(vs[ws.len() - 1] < pow256(ws[ws.len() - 1] as nat));
        lemma_le_roundtrip(ws.last() as nat, vs.last() as nat);
        lemma_fields_roundtrip(wp, vp, last + rest);
        let b = fields_bytes(ws, vs) + rest;
        assert(b =~= fields_bytes(wp, vp) + (last + rest));
        assert(b.subrange(total(wp) as int, total(ws) as int) =~= last);
        assert(fields_at(b, ws) =~= vp.push(vs.last()));
        assert(vp.push(vs.last()) =~= vs);
    }
}

/// Extending a record by one field appends that field's bytes.
pub proof fn lemma_fields_bytes_take(ws: Seq<usize>, vs: Seq<u64>, i: int)
    requires
        ws.len() == vs.len(),
        0 <= i < ws.len(),
    ensures
        fields_bytes(ws.take(i + 1), vs.take(i + 1)) == fields_bytes(ws.take(i), vs.take(i)) + le_bytes(
            ws[i] as nat,
            vs[i] as nat,
        ),
{
    assert(ws.take(i + 1).drop_last() =~= ws.take(i));
    assert(vs.take(i + 1).drop_last() =~= vs.take(i));
}

/// Reading one more field appends its value.
pub proof fn lemma_fields_at_take(b: Seq<u8>, ws: Seq<usize>, i: int)
    requires
        0 <= i < ws.len(),
    ensures
        fields_at(b, ws.take(i + 1)) == fields_at(b, ws.take(i)).push(
            le_value(b.subrange(total(ws.take(i)) as int, total(ws.take(i)) + ws[i])) as u64,
        ),
        total(ws.take(i + 1)) == total(ws.take(i)) + ws[i],
{
    assert(ws.take(i + 1).drop_last() =~= ws.take(i));
}

/// Append the `w` little-endian bytes of `v`.
pub(crate) fn push_le(out: &mut Vec<u8>, w: usize, v: u64)
    requires
        w <= 8,
    ensures
        final(out)@ == old(out)@ + le_bytes(w as nat, v as nat),
{
    let mut x = v;
    let mut k: usize = 0;
    while k < w
        invariant
            k <= w,
            old(out)@ + le_bytes(w as nat, v as nat) == out@ + le_bytes((w - k) as nat, x as nat),
        decreases w - k,
    {
        let ghost before = out@;
        out.push((x % 256) as u8);
        assert(le_bytes((w - k) as nat, x as nat) =~= seq![(x % 256) as u8] + le_bytes(
            (w - k - 1) as nat,
            (x / 256) as nat,
        ));
        assert(out@ + le_bytes((w - k - 1) as nat, (x / 256) as nat) =~= before + le_bytes(
            (w - k) as nat,
            x as nat,
        ));
        x = x / 256;
        k = k + 1;
    }
    assert(le_bytes(0, x as nat) =~= Seq::<u8>::empty());
    assert(out@ + le_bytes(0, x as nat) =~= out@);
}

/// The number stored little-endian in `b[off..off + w]`.
pub(crate) fn read_le(b: &[u8], off: usize, w: usize) -> (r: u64)
    requires
        1 <= w <= 8,
        off + w <= b@.len(),
    ensures
        r as nat == le_value(b@.subrange(off as int, off + w)),
{
    let mut acc: u64 = 0;
    let mut j: usize = w;
    let n = b.len();
    proof {
        lemma_pow256_small(w as nat);
    }
    while j > 0
        invariant
            1 <= w <= 8,
            off + w <= b@.len(),
            n == b@.len(),
            j <= w,
            acc as nat == le_value(b@.subrange(off + j, off + w)),
            pow256(w as nat) <= 0x1_0000_0000_0000_0000,
        decreases j,
    {
        let ghost s = b@.subrange(off + j - 1, off + w);
        proof {
            lemma_le_bound(b@.subrange(off + j, off + w));
            assert(s.drop_first() =~= b@.subrange(off + j, off + w));
            assert(pow256((w - j) as nat) <= pow256(7)) by {
                lemma_pow_mono((w - j) as nat, 7);
            }
            reveal_with_fuel(pow256, 8);
            assert(acc as nat * 256 + b[off + j - 1] < 0x1_0000_0000_0000_0000) by (nonlinear_arith)
                requires
                    acc < pow256((w - j) as nat),
                    pow256((w - j) as nat) <= 0x100_0000_0000_0000,
                    b[off + j - 1] < 256,
            ;
        }
        acc = acc * 256 + b[off + j - 1] as u64;
        j = j - 1;
    }
    acc
}

pub proof fn lemma_pow_mono(a: nat, b: nat)
    requires
        a <= b,
    ensures
        pow256(a) <= pow256(b),
    decreases b,
{
    if a < b {
        lemma_pow_mono(a, (b - 1) as nat);
    }
}

} // verus!
