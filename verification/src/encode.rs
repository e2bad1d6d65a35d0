//! Serializing wire values into bytes.
//!
//! `enc` is the mathematical definition of the canonical encoding: every
//! value is written in its shortest form, which is also what the reference
//! encoders for this format emit. `encode_value_into` is the executable
//! encoder, proved to produce exactly `enc` of the value's model.
use vstd::prelude::*;

use crate::value::{models, WireVal, WireValue};

verus! {

broadcast use vstd::seq::axiom_seq_index_decreases, vstd::seq::axiom_seq_subrange_decreases,
    vstd::std_specs::vec::group_vec_axioms;

/// 256 to the power `k`: the number of values `k` bytes can hold.
pub open spec fn pow256(k: nat) -> int
    decreases k,
{
    if k == 0 {
        1
    } else {
        256 * pow256((k - 1) as nat)
    }
}

/// The `k`-byte big-endian encoding of `n` (for `0 <= n < pow256(k)`).
pub open spec fn be_bytes(n: int, k: nat) -> Seq<u8>
    decreases k,
{
    if k == 0 {
        Seq::empty()
    } else {
        be_bytes(n / 256, (k - 1) as nat).push((n % 256) as u8)
    }
}

/// The integer a big-endian byte string denotes.
pub open spec fn from_be(s: Seq<u8>) -> int
    decreases s.len(),
{
    if s.len() == 0 {
        0
    } else {
        from_be(s.drop_last()) * 256 + s.last()
    }
}

pub proof fn lemma_be_bytes_len(n: int, k: nat)
    ensures
        be_bytes(n, k).len() == k,
    decreases k,
{
    if k > 0 {
        lemma_be_bytes_len(n / 256, (k - 1) as nat);
    }
}

/// Reading back the big-endian bytes of `n` yields `n`.
pub proof fn lemma_from_be_bytes(n: int, k: nat)
    requires
        0 <= n < pow256(k),
    ensures
        from_be(be_bytes(n, k)) == n,
    decreases k,
{
    if k > 0 {
        let q = n / 256;
        let r = n % 256;
        assert(n == 256 * q + r);
        assert(q < pow256((k - 1) as nat)) by {
            if q >= pow256((k - 1) as nat) {
                assert(n >= 256 * pow256((k - 1) as nat)) by (nonlinear_arith)
                    requires q >= pow256((k - 1) as nat) && n >= 256 * q;
            }
        }
        lemma_from_be_bytes(q, (k - 1) as nat);
        let pre = be_bytes(q, (k - 1) as nat);
        lemma_be_bytes_len(q, (k - 1) as nat);
        assert(pre.push((r) as u8).drop_last() =~= pre);
    }
}

/// The canonical encoding of an integer: the shortest format that holds it.
pub open spec fn enc_int(i: int) -> Seq<u8> {
    if 0 <= i < 0x80 {
        seq![i as u8]
    } else if 0x80 <= i < 0x100 {
        seq![0xccu8] + be_bytes(i, 1)
    } else if 0x100 <= i < 0x10000 {
        seq![0xcdu8] + be_bytes(i, 2)
    } else if 0x10000 <= i < 0x100000000 {
        seq![0xceu8] + be_bytes(i, 4)
    } else if 0x100000000 <= i < 0x10000000000000000 {
        seq![0xcfu8] + be_bytes(i, 8)
    } else if -0x20 <= i < 0 {
        seq![(i + 0x100) as u8]
    } else if -0x80 <= i < -0x20 {
        seq![0xd0u8] + be_bytes(i + 0x100, 1)
    } else if -0x8000 <= i < -0x80 {
        seq![0xd1u8] + be_bytes(i + 0x10000, 2)
    } else if -0x80000000 <= i < -0x8000 {
        seq![0xd2u8] + be_bytes(i + 0x100000000, 4)
    } else if -0x8000000000000000 <= i < -0x80000000 {
        seq![0xd3u8] + be_bytes(i + 0x10000000000000000, 8)
    } else {
        seq![0xc0u8]
    }
}

/// The header announcing a string of `l` bytes.
pub open spec fn enc_strhead(l: int) -> Seq<u8> {
    if l < 0x20 {
        seq![(0xa0 + l) as u8]
    } else if l < 0x100 {
        seq![0xd9u8] + be_bytes(l, 1)
    } else if l < 0x10000 {
        seq![0xdau8] + be_bytes(l, 2)
    } else {
        seq![0xdbu8] + be_bytes(l, 4)
    }
}

/// The header announcing a binary blob of `l` bytes.
pub open spec fn enc_binhead(l: int) -> Seq<u8> {
    if l < 0x100 {
        seq![0xc4u8] + be_bytes(l, 1)
    } else if l < 0x10000 {
        seq![0xc5u8] + be_bytes(l, 2)
    } else {
        seq![0xc6u8] + be_bytes(l, 4)
    }
}

/// The header announcing an array of `l` elements.
pub open spec fn enc_arrhead(l: int) -> Seq<u8> {
    if l < 0x10 {
        seq![(0x90 + l) as u8]
    } else if l < 0x10000 {
        seq![0xdcu8] + be_bytes(l, 2)
    } else {
        seq![0xddu8] + be_bytes(l, 4)
    }
}

/// The header announcing a map of `l` key-value pairs.
pub open spec fn enc_maphead(l: int) -> Seq<u8> {
    if l < 0x10 {
        seq![(0x80 + l) as u8]
    } else if l < 0x10000 {
        seq![0xdeu8] + be_bytes(l, 2)
    } else {
        seq![0xdfu8] + be_bytes(l, 4)
    }
}

/// The byte carrying an extension type tag (two's complement).
pub open spec fn tag_byte(t: i8) -> u8 {
    if t < 0 {
        (t + 0x100) as u8
    } else {
        t as u8
    }
}

/// The header announcing an extension value with `l` payload bytes.
pub open spec fn enc_exthead(l: int, t: i8) -> Seq<u8> {
    if l == 1 {
        seq![0xd4u8, tag_byte(t)]
    } else if l == 2 {
        seq![0xd5u8, tag_byte(t)]
    } else if l == 4 {
        seq![0xd6u8, tag_byte(t)]
    } else if l == 8 {
        seq![0xd7u8, tag_byte(t)]
    } else if l == 16 {
        seq![0xd8u8, tag_byte(t)]
    } else if l < 0x100 {
        seq![0xc7u8] + be_bytes(l, 1) + seq![tag_byte(t)]
    } else if l < 0x10000 {
        seq![0xc8u8] + be_bytes(l, 2) + seq![tag_byte(t)]
    } else {
        seq![0xc9u8] + be_bytes(l, 4) + seq![tag_byte(t)]
    }
}

/// The canonical byte encoding of one wire value.
pub open spec fn enc(v: WireVal) -> Seq<u8>
    decreases v,
{
    match v {
        WireVal::Nil => seq![0xc0u8],
        WireVal::Bool(b) => if b {
            seq![0xc3u8]
        } else {
            seq![0xc2u8]
        },
        WireVal::Int(i) => enc_int(i),
        WireVal::F32(b) => seq![0xcau8] + be_bytes(b as int, 4),
        WireVal::F64(b) => seq![0xcbu8] + be_bytes(b as int, 8),
        WireVal::Str(s) => enc_strhead(s.len() as int) + s,
        WireVal::Bin(b) => enc_binhead(b.len() as int) + b,
        WireVal::Array(a) => enc_arrhead(a.len() as int) + enc_list(a),
        WireVal::Dict(m) => enc_maphead(m.len() as int) + enc_pairs(m),
        WireVal::Ext(t, d) => enc_exthead(d.len() as int, t) + d,
    }
}

/// The concatenated encodings of a sequence of values.
pub open spec fn enc_list(a: Seq<WireVal>) -> Seq<u8>
    decreases a,
{
    if a.len() == 0 {
        Seq::empty()
    } else {
        enc(a[0]) + enc_list(a.drop_first())
    }
}

/// The concatenated encodings of a sequence of key-value pairs.
pub open spec fn enc_pairs(m: Seq<(WireVal, WireVal)>) -> Seq<u8>
    decreases m,
{
    if m.len() == 0 {
        Seq::empty()
    } else {
        enc(m[0].0) + enc(m[0].1) + enc_pairs(m.drop_first())
    }
}

pub proof fn lemma_enc_list_snoc(a: Seq<WireVal>, v: WireVal)
    ensures
        enc_list(a.push(v)) == enc_list(a) + enc(v),
    decreases a.len(),
{
    if a.len() == 0 {
        assert(a.push(v).drop_first() =~= Seq::<WireVal>::empty());
        assert(a.push(v)[0] == v);
        assert(enc_list(a.push(v)) == enc(v) + enc_list(Seq::<WireVal>::empty()));
        assert(enc(v) + Seq::<u8>::empty() =~= Seq::<u8>::empty() + enc(v));
    } else {
        assert(a.push(v).drop_first() =~= a.drop_first().push(v));
        lemma_enc_list_snoc(a.drop_first(), v);
        assert(enc(a[0]) + (enc_list(a.drop_first()) + enc(v)) =~= (enc(a[0]) + enc_list(
            a.drop_first(),
        )) + enc(v));
    }
}

pub proof fn lemma_enc_pairs_snoc(m: Seq<(WireVal, WireVal)>, p: (WireVal, WireVal))
    ensures
        enc_pairs(m.push(p)) == enc_pairs(m) + enc(p.0) + enc(p.1),
    decreases m.len(),
{
    if m.len() == 0 {
        assert(m.push(p).drop_first() =~= Seq::<(WireVal, WireVal)>::empty());
        assert(m.push(p)[0] == p);
        assert(enc_pairs(m.push(p)) == enc(p.0) + enc(p.1) + enc_pairs(
            Seq::<(WireVal, WireVal)>::empty(),
        ));
        assert(enc(p.0) + enc(p.1) + Seq::<u8>::empty() =~= (Seq::<u8>::empty() + enc(p.0)) + enc(
            p.1,
        ));
    } else {
        assert(m.push(p).drop_first() =~= m.drop_first().push(p));
        lemma_enc_pairs_snoc(m.drop_first(), p);
        assert(enc(m[0].0) + enc(m[0].1) + (enc_pairs(m.drop_first()) + enc(p.0) + enc(p.1)) =~= (
        enc(m[0].0) + enc(m[0].1) + enc_pairs(m.drop_first())) + enc(p.0) + enc(p.1));
    }
}

/// Append the `k`-byte big-endian encoding of `x`.
fn push_be(out: &mut Vec<u8>, x: u64, k: usize)
    requires
        k <= 8,
    ensures
        final(out)@ == old(out)@ + be_bytes(x as int, k as nat),
    decreases k,
{
    if k == 0 {
        assert(out@ =~= old(out)@ + be_bytes(x as int, 0));
    } else {
        push_be(out, x / 256, k - 1);
        out.push((x % 256) as u8);
        assert(out@ =~= old(out)@ + be_bytes(x as int, k as nat));
    }
}

/// Append the canonical encoding of a non-negative integer.
pub fn push_uint(out: &mut Vec<u8>, n: u64)
    ensures
        final(out)@ == old(out)@ + enc_int(n as int),
{
    if n < 0x80 {
        out.push(n as u8);
        assert(out@ =~= old(out)@ + enc_int(n as int));
    } else if n < 0x100 {
        out.push(0xcc);
        push_be(out, n, 1);
        assert(out@ =~= old(out)@ + enc_int(n as int));
    } else if n < 0x10000 {
        out.push(0xcd);
        push_be(out, n, 2);
        assert(out@ =~= old(out)@ + enc_int(n as int));
    } else if n < 0x100000000 {
        out.push(0xce);
        push_be(out, n, 4);
        assert(out@ =~= old(out)@ + enc_int(n as int));
    } else {
        out.push(0xcf);
        push_be(out, n, 8);
        assert(out@ =~= old(out)@ + enc_int(n as int));
    }
}

/// Append the canonical encoding of a strictly negative integer.
fn push_nint(out: &mut Vec<u8>, n: i64)
    requires
        n < 0,
    ensures
        final(out)@ == old(out)@ + enc_int(n as int),
{
    if n >= -0x20 {
        out.push((n + 0x100) as u8);
        assert(out@ =~= old(out)@ + enc_int(n as int));
    } else if n >= -0x80 {
        out.push(0xd0);
        push_be(out, (n + 0x100) as u64, 1);
        assert(out@ =~= old(out)@ + enc_int(n as int));
    } else if n >= -0x8000 {
        out.push(0xd1);
        push_be(out, (n + 0x10000) as u64, 2);
        assert(out@ =~= old(out)@ + enc_int(n as int));
    } else if n >= -0x80000000 {
        out.push(0xd2);
        push_be(out, (n + 0x100000000) as u64, 4);
        assert(out@ =~= old(out)@ + enc_int(n as int));
    } else {
        out.push(0xd3);
        let m: i64 = -(n + 1);
        let u: u64 = u64::MAX - (m as u64);
        assert(u as int == n + 0x10000000000000000);
        push_be(out, u, 8);
        assert(out@ =~= old(out)@ + enc_int(n as int));
    }
}

/// Append a copy of the given bytes.
fn push_bytes(out: &mut Vec<u8>, b: &Vec<u8>)
    ensures
        final(out)@ == old(out)@ + b@,
{
    let mut j: usize = 0;
    while j < b.len()
        invariant
            j <= b@.len(),
            out@ == old(out)@ + b@.take(j as int),
        decreases b@.len() - j,
    {
        out.push(b[j]);
        assert(out@ =~= old(out)@ + b@.take(j + 1 as int));
        j = j + 1;
    }
    assert(out@ =~= old(out)@ + b@);
}

/// Append the extension-tag byte.
fn push_tag(out: &mut Vec<u8>, t: i8)
    ensures
        final(out)@ == old(out)@ + seq![tag_byte(t)],
{
    if t < 0 {
        out.push(((t as i64) + 0x100) as u8);
    } else {
        out.push(t as u8);
    }
    assert(out@ =~= old(out)@ + seq![tag_byte(t)]);
}

/// Append the canonical encoding of one wire value.
#[verifier::loop_isolation(false)]
#[verifier::rlimit(80)]
pub fn encode_value_into(out: &mut Vec<u8>, v: &WireValue)
    requires
        v.valid(),
    ensures
        final(out)@ == old(out)@ + enc(v@),
    decreases v,
{
    match v {
        WireValue::Nil => {
            out.push(0xc0);
            assert(out@ =~= old(out)@ + enc(v@));
        },
        WireValue::Bool(b) => {
            out.push(if *b {
                0xc3
            } else {
                0xc2
            });
            assert(out@ =~= old(out)@ + enc(v@));
        },
        WireValue::Uint(n) => {
            push_uint(out, *n);
        },
        WireValue::Nint(n) => {
            push_nint(out, *n);
        },
        WireValue::F32(b) => {
            out.push(0xca);
            push_be(out, *b as u64, 4);
            assert(out@ =~= old(out)@ + enc(v@));
        },
        WireValue::F64(b) => {
            out.push(0xcb);
            push_be(out, *b, 8);
            assert(out@ =~= old(out)@ + enc(v@));
        },
        WireValue::Str(s) => {
            let l = s.len();
            if l < 0x20 {
                out.push((0xa0 + l) as u8);
            } else if l < 0x100 {
                out.push(0xd9);
                push_be(out, l as u64, 1);
            } else if l < 0x10000 {
                out.push(0xda);
                push_be(out, l as u64, 2);
            } else {
                out.push(0xdb);
                push_be(out, l as u64, 4);
            }
            push_bytes(out, s);
            assert(out@ =~= old(out)@ + enc(v@));
        },
        WireValue::Bin(b) => {
            let l = b.len();
            if l < 0x100 {
                out.push(0xc4);
                push_be(out, l as u64, 1);
            } else if l < 0x10000 {
                out.push(0xc5);
                push_be(out, l as u64, 2);
            } else {
                out.push(0xc6);
                push_be(out, l as u64, 4);
            }
            push_bytes(out, b);
            assert(out@ =~= old(out)@ + enc(v@));
        },
        WireValue::Ext(t, d) => {
            let l = d.len();
            if l == 1 {
                out.push(0xd4);
                push_tag(out, *t);
            } else if l == 2 {
                out.push(0xd5);
                push_tag(out, *t);
            } else if l == 4 {
                out.push(0xd6);
                push_tag(out, *t);
            } else if l == 8 {
                out.push(0xd7);
                push_tag(out, *t);
            } else if l == 16 {
                out.push(0xd8);
                push_tag(out, *t);
            } else if l < 0x100 {
                out.push(0xc7);
                push_be(out, l as u64, 1);
                push_tag(out, *t);
            } else if l < 0x10000 {
                out.push(0xc8);
                push_be(out, l as u64, 2);
                push_tag(out, *t);
            } else {
                out.push(0xc9);
                push_be(out, l as u64, 4);
                push_tag(out, *t);
            }
            push_bytes(out, d);
            assert(out@ =~= old(out)@ + enc(v@));
        },
        WireValue::Array(a) => {
            encode_array_into(out, a);
            proof {
                assert(v@->Array_0 =~= models(a@));
                assert(out@ =~= old(out)@ + enc(v@));
            }
        },
        WireValue::Dict(m) => {
            let l = m.len();
            if l < 0x10 {
                out.push((0x80 + l) as u8);
            } else if l < 0x10000 {
                out.push(0xde);
                push_be(out, l as u64, 2);
            } else {
                out.push(0xdf);
                push_be(out, l as u64, 4);
            }
            let ghost pairs = v@->Dict_0;
            let ghost head_done = out@;
            assert(head_done == old(out)@ + enc_maphead(m@.len() as int));
            let mut i: usize = 0;
            while i < m.len()
                invariant
                    i <= m@.len(),
                    pairs == v@->Dict_0,
                    pairs.len() == m@.len(),
                    forall|j: int| 0 <= j < m@.len() ==> pairs[j] == ((#[trigger] m@[j]).0@,
                    m@[j].1@),
                    forall|j: int| 0 <= j < m@.len() ==> (#[trigger] m@[j]).0.valid()
                        && m@[j].1.valid(),
                    out@ == head_done + enc_pairs(pairs.take(i as int)),
                decreases m@.len() - i,
            {
                proof {
                    assert(decreases_to!(v => m));
                    assert(decreases_to!(m => m[i as int]));
                }
                encode_value_into(out, &m[i].0);
                encode_value_into(out, &m[i].1);
                proof {
                    lemma_enc_pairs_snoc(pairs.take(i as int), pairs[i as int]);
                    assert(pairs.take(i + 1 as int) =~= pairs.take(i as int).push(
                        pairs[i as int],
                    ));
                }
                i = i + 1;
            }
            proof {
                assert(pairs.take(m@.len() as int) =~= pairs);
                assert(out@ =~= old(out)@ + enc(v@));
            }
        },
    }
}


/// Append the canonical encoding of a string given as raw bytes.
pub fn push_str(out: &mut Vec<u8>, b: &Vec<u8>)
    requires
        b@.len() <= u32::MAX,
    ensures
        final(out)@ == old(out)@ + enc(WireVal::Str(b@)),
{
    let l = b.len();
    if l < 0x20 {
        out.push((0xa0 + l) as u8);
    } else if l < 0x100 {
        out.push(0xd9);
        push_be(out, l as u64, 1);
    } else if l < 0x10000 {
        out.push(0xda);
        push_be(out, l as u64, 2);
    } else {
        out.push(0xdb);
        push_be(out, l as u64, 4);
    }
    push_bytes(out, b);
    assert(out@ =~= old(out)@ + enc(WireVal::Str(b@)));
}

/// Append the canonical encoding of an array of values.
#[verifier::loop_isolation(false)]
#[verifier::rlimit(60)]
pub fn encode_array_into(out: &mut Vec<u8>, a: &Vec<WireValue>)
    requires
        a@.len() <= u32::MAX,
        forall|j: int| 0 <= j < a@.len() ==> (#[trigger] a@[j]).valid(),
    ensures
        final(out)@ == old(out)@ + enc(WireVal::Array(models(a@))),
    decreases a,
{
    let l = a.len();
    if l < 0x10 {
        out.push((0x90 + l) as u8);
    } else if l < 0x10000 {
        out.push(0xdc);
        push_be(out, l as u64, 2);
    } else {
        out.push(0xdd);
        push_be(out, l as u64, 4);
    }
    let ghost elems = models(a@);
    let ghost head_done = out@;
    assert(head_done == old(out)@ + enc_arrhead(a@.len() as int));
    let mut i: usize = 0;
    while i < a.len()
        invariant
            i <= a@.len(),
            elems == models(a@),
            out@ == head_done + enc_list(elems.take(i as int)),
        decreases a@.len() - i,
    {
        proof {
            assert(decreases_to!(a => a[i as int]));
        }
        encode_value_into(out, &a[i]);
        proof {
            lemma_enc_list_snoc(elems.take(i as int), elems[i as int]);
            assert(elems.take(i + 1 as int) =~= elems.take(i as int).push(elems[i as int]));
        }
        i = i + 1;
    }
    proof {
        assert(elems.take(a@.len() as int) =~= elems);
        assert(out@ =~= old(out)@ + enc(WireVal::Array(models(a@))));
    }
}


pub proof fn lemma_enc_list3(e0: WireVal, e1: WireVal, e2: WireVal)
    ensures
        enc_list(seq![e0, e1, e2]) == enc(e0) + enc(e1) + enc(e2),
{
    assert(seq![e0, e1, e2].drop_first() =~= seq![e1, e2]);
    assert(seq![e1, e2].drop_first() =~= seq![e2]);
    assert(seq![e2].drop_first() =~= Seq::<WireVal>::empty());
    assert(enc_list(seq![e2]) == enc(seq![e2][0]) + enc_list(Seq::<WireVal>::empty()));
    assert(enc_list(seq![e1, e2]) == enc(seq![e1, e2][0]) + enc_list(seq![e2]));
    assert(enc_list(seq![e0, e1, e2]) == enc(seq![e0, e1, e2][0]) + enc_list(seq![e1, e2]));
    assert(enc(e0) + (enc(e1) + (enc(e2) + Seq::<u8>::empty())) =~= enc(e0) + enc(e1) + enc(e2));
}

pub proof fn lemma_enc_list4(e0: WireVal, e1: WireVal, e2: WireVal, e3: WireVal)
    ensures
        enc_list(seq![e0, e1, e2, e3]) == enc(e0) + enc(e1) + enc(e2) + enc(e3),
{
    assert(seq![e0, e1, e2, e3].drop_first() =~= seq![e1, e2, e3]);
    lemma_enc_list3(e1, e2, e3);
    assert(enc(e0) + (enc(e1) + enc(e2) + enc(e3)) =~= enc(e0) + enc(e1) + enc(e2) + enc(e3));
}

} // verus!
