//! Parsing wire values out of bytes.
//!
//! `parse_val` is the mathematical definition of the decoder: applied to a
//! byte string, it either finds one complete value (together with how many
//! bytes it occupies), reports that the bytes are a proper prefix of some
//! value (`More` — read further and retry), or rejects them as malformed
//! (`Bad`). The executable decoder `parse_value` is proved to return exactly
//! what `parse_val` says, for every input.
use vstd::prelude::*;

use crate::encode::{from_be, pow256};
use crate::value::{lemma_array_model, lemma_dict_model, lemma_models_push, lemma_pair_models_push,
    models, pair_models, WireVal, WireValue};

verus! {

broadcast use vstd::seq::axiom_seq_index_decreases, vstd::seq::axiom_seq_subrange_decreases,
    vstd::std_specs::vec::group_vec_axioms;

/// Outcome of parsing one value from the front of a byte string.
pub enum ParseOut {
    /// The bytes end before one whole value is complete.
    More,
    /// The bytes cannot begin any value.
    Bad,
    /// One complete value, and the count of bytes it occupies.
    Found(WireVal, nat),
}

/// Outcome of parsing a run of consecutive values.
pub enum ListOut {
    More,
    Bad,
    Found(Seq<WireVal>, nat),
}

/// Outcome of parsing a run of consecutive key-value pairs.
pub enum PairsOut {
    More,
    Bad,
    Found(Seq<(WireVal, WireVal)>, nat),
}

/// A two's-complement reading: `raw` drawn from `k` bytes is negative
/// when its topmost bit is set.
pub open spec fn signed_of(raw: int, k: nat) -> int {
    if raw >= pow256(k) / 2 {
        raw - pow256(k)
    } else {
        raw
    }
}

/// The extension type tag denoted by one byte (two's complement).
pub open spec fn tag_of(b: u8) -> i8 {
    if b >= 0x80 {
        (b - 0x100) as i8
    } else {
        b as i8
    }
}

/// Parse one value from the front of `s`.
pub open spec fn parse_val(s: Seq<u8>) -> ParseOut
    decreases s.len(), 0nat, 0nat,
{
    if s.len() == 0 {
        ParseOut::More
    } else {
        let b = s[0];
        if b < 0x80 {
            ParseOut::Found(WireVal::Int(b as int), 1)
        } else if b < 0x90 {
            arr_or_map(s.skip(1), 1, (b - 0x80) as nat, false)
        } else if b < 0xa0 {
            arr_or_map(s.skip(1), 1, (b - 0x90) as nat, true)
        } else if b < 0xc0 {
            str_at(s, 1, (b - 0xa0) as nat)
        } else if b == 0xc0 {
            ParseOut::Found(WireVal::Nil, 1)
        } else if b == 0xc1 {
            ParseOut::Bad
        } else if b == 0xc2 {
            ParseOut::Found(WireVal::Bool(false), 1)
        } else if b == 0xc3 {
            ParseOut::Found(WireVal::Bool(true), 1)
        } else if b == 0xc4 {
            if s.len() < 2 {
                ParseOut::More
            } else {
                bin_at(s, 2, s[1] as nat)
            }
        } else if b == 0xc5 {
            if s.len() < 3 {
                ParseOut::More
            } else {
                bin_at(s, 3, from_be(s.subrange(1, 3)) as nat)
            }
        } else if b == 0xc6 {
            if s.len() < 5 {
                ParseOut::More
            } else {
                bin_at(s, 5, from_be(s.subrange(1, 5)) as nat)
            }
        } else if b == 0xc7 {
            if s.len() < 3 {
                ParseOut::More
            } else {
                ext_at(s, 3, s[1] as nat, s[2])
            }
        } else if b == 0xc8 {
            if s.len() < 4 {
                ParseOut::More
            } else {
                ext_at(s, 4, from_be(s.subrange(1, 3)) as nat, s[3])
            }
        } else if b == 0xc9 {
            if s.len() < 6 {
                ParseOut::More
            } else {
                ext_at(s, 6, from_be(s.subrange(1, 5)) as nat, s[5])
            }
        } else if b == 0xca {
            if s.len() < 5 {
                ParseOut::More
            } else {
                ParseOut::Found(WireVal::F32(from_be(s.subrange(1, 5)) as u32), 5)
            }
        } else if b == 0xcb {
            if s.len() < 9 {
                ParseOut::More
            } else {
                ParseOut::Found(WireVal::F64(from_be(s.subrange(1, 9)) as u64), 9)
            }
        } else if b == 0xcc {
            if s.len() < 2 {
                ParseOut::More
            } else {
                ParseOut::Found(WireVal::Int(s[1] as int), 2)
            }
        } else if b == 0xcd {
            if s.len() < 3 {
                ParseOut::More
            } else {
                ParseOut::Found(WireVal::Int(from_be(s.subrange(1, 3))), 3)
            }
        } else if b == 0xce {
            if s.len() < 5 {
                ParseOut::More
            } else {
                ParseOut::Found(WireVal::Int(from_be(s.subrange(1, 5))), 5)
            }
        } else if b == 0xcf {
            if s.len() < 9 {
                ParseOut::More
            } else {
                ParseOut::Found(WireVal::Int(from_be(s.subrange(1, 9))), 9)
            }
        } else if b == 0xd0 {
            if s.len() < 2 {
                ParseOut::More
            } else {
                ParseOut::Found(WireVal::Int(signed_of(s[1] as int, 1)), 2)
            }
        } else if b == 0xd1 {
            if s.len() < 3 {
                ParseOut::More
            } else {
                ParseOut::Found(WireVal::Int(signed_of(from_be(s.subrange(1, 3)), 2)), 3)
            }
        } else if b == 0xd2 {
            if s.len() < 5 {
                ParseOut::More
            } else {
                ParseOut::Found(WireVal::Int(signed_of(from_be(s.subrange(1, 5)), 4)), 5)
            }
        } else if b == 0xd3 {
            if s.len() < 9 {
                ParseOut::More
            } else {
                ParseOut::Found(WireVal::Int(signed_of(from_be(s.subrange(1, 9)), 8)), 9)
            }
        } else if b == 0xd4 {
            if s.len() < 2 {
                ParseOut::More
            } else {
                ext_at(s, 2, 1, s[1])
            }
        } else if b == 0xd5 {
            if s.len() < 2 {
                ParseOut::More
            } else {
                ext_at(s, 2, 2, s[1])
            }
        } else if b == 0xd6 {
            if s.len() < 2 {
                ParseOut::More
            } else {
                ext_at(s, 2, 4, s[1])
            }
        } else if b == 0xd7 {
            if s.len() < 2 {
                ParseOut::More
            } else {
                ext_at(s, 2, 8, s[1])
            }
        } else if b == 0xd8 {
            if s.len() < 2 {
                ParseOut::More
            } else {
                ext_at(s, 2, 16, s[1])
            }
        } else if b == 0xd9 {
            if s.len() < 2 {
                ParseOut::More
            } else {
                str_at(s, 2, s[1] as nat)
            }
        } else if b == 0xda {
            if s.len() < 3 {
                ParseOut::More
            } else {
                str_at(s, 3, from_be(s.subrange(1, 3)) as nat)
            }
        } else if b == 0xdb {
            if s.len() < 5 {
                ParseOut::More
            } else {
                str_at(s, 5, from_be(s.subrange(1, 5)) as nat)
            }
        } else if b == 0xdc {
            if s.len() < 3 {
                ParseOut::More
            } else {
                arr_or_map(s.skip(3), 3, from_be(s.subrange(1, 3)) as nat, true)
            }
        } else if b == 0xdd {
            if s.len() < 5 {
                ParseOut::More
            } else {
                arr_or_map(s.skip(5), 5, from_be(s.subrange(1, 5)) as nat, true)
            }
        } else if b == 0xde {
            if s.len() < 3 {
                ParseOut::More
            } else {
                arr_or_map(s.skip(3), 3, from_be(s.subrange(1, 3)) as nat, false)
            }
        } else if b == 0xdf {
            if s.len() < 5 {
                ParseOut::More
            } else {
                arr_or_map(s.skip(5), 5, from_be(s.subrange(1, 5)) as nat, false)
            }
        } else {
            ParseOut::Found(WireVal::Int(b as int - 0x100), 1)
        }
    }
}

/// A string whose `l` payload bytes start at offset `h` of `s`.
pub open spec fn str_at(s: Seq<u8>, h: nat, l: nat) -> ParseOut {
    if s.len() < h + l {
        ParseOut::More
    } else {
        ParseOut::Found(WireVal::Str(s.subrange(h as int, (h + l) as int)), h + l)
    }
}

/// A binary blob whose `l` payload bytes start at offset `h` of `s`.
pub open spec fn bin_at(s: Seq<u8>, h: nat, l: nat) -> ParseOut {
    if s.len() < h + l {
        ParseOut::More
    } else {
        ParseOut::Found(WireVal::Bin(s.subrange(h as int, (h + l) as int)), h + l)
    }
}

/// An extension value with tag byte `tb` whose `l` payload bytes start at
/// offset `h` of `s`.
pub open spec fn ext_at(s: Seq<u8>, h: nat, l: nat, tb: u8) -> ParseOut {
    if s.len() < h + l {
        ParseOut::More
    } else {
        ParseOut::Found(WireVal::Ext(tag_of(tb), s.subrange(h as int, (h + l) as int)), h + l)
    }
}

/// An array (`arr` true) of `n` values or a map of `n` pairs, parsed from
/// `body` (the bytes after the header); `h` is the header's size, counted
/// into the result.
pub open spec fn arr_or_map(body: Seq<u8>, h: nat, n: nat, arr: bool) -> ParseOut
    decreases body.len(), n, 2nat,
{
    if arr {
        match parse_list(body, n) {
            ListOut::More => ParseOut::More,
            ListOut::Bad => ParseOut::Bad,
            ListOut::Found(vs, c) => ParseOut::Found(WireVal::Array(vs), h + c),
        }
    } else {
        match parse_pairs(body, n) {
            PairsOut::More => ParseOut::More,
            PairsOut::Bad => ParseOut::Bad,
            PairsOut::Found(ps, c) => ParseOut::Found(WireVal::Dict(ps), h + c),
        }
    }
}

/// Parse `n` consecutive values from the front of `s`.
pub open spec fn parse_list(s: Seq<u8>, n: nat) -> ListOut
    decreases s.len(), n, 1nat,
{
    if n == 0 {
        ListOut::Found(Seq::empty(), 0)
    } else {
        match parse_val(s) {
            ParseOut::More => ListOut::More,
            ParseOut::Bad => ListOut::Bad,
            ParseOut::Found(v, c) => {
                if c < 1 || c > s.len() {
                    ListOut::Bad
                } else {
                    match parse_list(s.skip(c as int), (n - 1) as nat) {
                        ListOut::More => ListOut::More,
                        ListOut::Bad => ListOut::Bad,
                        ListOut::Found(vs, c2) => ListOut::Found(seq![v] + vs, c + c2),
                    }
                }
            },
        }
    }
}

/// Parse `n` consecutive key-value pairs from the front of `s`.
pub open spec fn parse_pairs(s: Seq<u8>, n: nat) -> PairsOut
    decreases s.len(), n, 1nat,
{
    if n == 0 {
        PairsOut::Found(Seq::empty(), 0)
    } else {
        match parse_val(s) {
            ParseOut::More => PairsOut::More,
            ParseOut::Bad => PairsOut::Bad,
            ParseOut::Found(k, ck) => {
                if ck < 1 || ck > s.len() {
                    PairsOut::Bad
                } else {
                    match parse_val(s.skip(ck as int)) {
                        ParseOut::More => PairsOut::More,
                        ParseOut::Bad => PairsOut::Bad,
                        ParseOut::Found(v, cv) => {
                            if cv < 1 || ck + cv > s.len() {
                                PairsOut::Bad
                            } else {
                                match parse_pairs(s.skip((ck + cv) as int), (n - 1) as nat) {
                                    PairsOut::More => PairsOut::More,
                                    PairsOut::Bad => PairsOut::Bad,
                                    PairsOut::Found(ps, c2) => PairsOut::Found(
                                        seq![(k, v)] + ps,
                                        ck + cv + c2,
                                    ),
                                }
                            }
                        },
                    }
                }
            },
        }
    }
}

/// Continue a partial run of values: prepend `pre` (already parsed, using
/// `off` bytes) to whatever `r` yields.
pub open spec fn cont_list(pre: Seq<WireVal>, off: nat, r: ListOut) -> ListOut {
    match r {
        ListOut::More => ListOut::More,
        ListOut::Bad => ListOut::Bad,
        ListOut::Found(vs, c) => ListOut::Found(pre + vs, off + c),
    }
}

/// Continue a partial run of pairs, as `cont_list` does for values.
pub open spec fn cont_pairs(pre: Seq<(WireVal, WireVal)>, off: nat, r: PairsOut) -> PairsOut {
    match r {
        PairsOut::More => PairsOut::More,
        PairsOut::Bad => PairsOut::Bad,
        PairsOut::Found(ps, c) => PairsOut::Found(pre + ps, off + c),
    }
}

proof fn lemma_cont_list_step(pre: Seq<WireVal>, off: nat, v: WireVal, c: nat, r: ListOut)
    ensures
        cont_list(pre, off, cont_list(seq![v], c, r)) == cont_list(pre.push(v), off + c, r),
{
    match r {
        ListOut::Found(vs, c2) => {
            assert(pre + (seq![v] + vs) =~= pre.push(v) + vs);
        },
        _ => {},
    }
}

proof fn lemma_cont_pairs_step(
    pre: Seq<(WireVal, WireVal)>,
    off: nat,
    p: (WireVal, WireVal),
    c: nat,
    r: PairsOut,
)
    ensures
        cont_pairs(pre, off, cont_pairs(seq![p], c, r)) == cont_pairs(pre.push(p), off + c, r),
{
    match r {
        PairsOut::Found(ps, c2) => {
            assert(pre + (seq![p] + ps) =~= pre.push(p) + ps);
        },
        _ => {},
    }
}

pub proof fn lemma_pow256_vals()
    ensures
        pow256(0) == 1,
        pow256(1) == 0x100,
        pow256(2) == 0x10000,
        pow256(4) == 0x100000000,
        pow256(8) == 0x10000000000000000,
{
    reveal_with_fuel(pow256, 9);
}

pub proof fn lemma_pow256_pos(k: nat)
    ensures
        pow256(k) >= 1,
    decreases k,
{
    if k > 0 {
        lemma_pow256_pos((k - 1) as nat);
    }
}

pub proof fn lemma_pow256_mono(a: nat, b: nat)
    requires
        a <= b,
    ensures
        0 < pow256(a) <= pow256(b),
    decreases b,
{
    if a == b {
        lemma_pow256_pos(a);
    } else {
        lemma_pow256_mono(a, (b - 1) as nat);
    }
}

/// A big-endian byte string denotes a value bounded by the bytes it uses.
pub proof fn lemma_from_be_bounds(s: Seq<u8>)
    ensures
        0 <= from_be(s) < pow256(s.len()),
    decreases s.len(),
{
    if s.len() > 0 {
        lemma_from_be_bounds(s.drop_last());
    }
}

/// Outcome of one executable decoding step.
pub enum ValueStep {
    /// The buffer ends before one whole value is complete.
    More,
    /// The buffer cannot begin any value.
    Bad,
    /// One complete value, and the position just past its bytes.
    Found(WireValue, usize),
}

/// Read `k` big-endian bytes at `pos` as an unsigned number.
fn read_be(buf: &Vec<u8>, pos: usize, k: usize) -> (r: u64)
    requires
        pos + k <= buf@.len(),
        k <= 8,
    ensures
        r as int == from_be(buf@.subrange(pos as int, (pos + k) as int)),
        (r as int) < pow256(k as nat),
{
    let blen = buf.len();
    let mut acc: u64 = 0;
    let mut i: usize = 0;
    proof {
        assert(buf@.subrange(pos as int, pos as int) =~= Seq::<u8>::empty());
    }
    while i < k
        invariant
            blen == buf@.len(),
            pos + k <= blen,
            k <= 8,
            i <= k,
            acc as int == from_be(buf@.subrange(pos as int, (pos + i) as int)),
            (acc as int) < pow256(i as nat),
        decreases k - i,
    {
        proof {
            lemma_pow256_mono(i as nat, 7);
            lemma_pow256_vals();
            assert(pow256(8) == 256 * pow256(7));
            lemma_pow256_mono(7, 8);
        }
        let b = buf[pos + i];
        acc = acc * 256 + (b as u64);
        proof {
            let sub1 = buf@.subrange(pos as int, (pos + i + 1) as int);
            assert(sub1.drop_last() =~= buf@.subrange(pos as int, (pos + i) as int));
            assert(sub1.last() == buf@[pos + i]);
        }
        i = i + 1;
    }
    acc
}

/// Copy `buf[start..end]` into a fresh vector.
pub(crate) fn copy_range(buf: &Vec<u8>, start: usize, end: usize) -> (r: Vec<u8>)
    requires
        start <= end <= buf@.len(),
    ensures
        r@ == buf@.subrange(start as int, end as int),
{
    let mut r: Vec<u8> = Vec::new();
    let mut i: usize = start;
    while i < end
        invariant
            start <= i <= end <= buf@.len(),
            r@ == buf@.subrange(start as int, i as int),
        decreases end - i,
    {
        r.push(buf[i]);
        assert(r@ =~= buf@.subrange(start as int, (i + 1) as int));
        i = i + 1;
    }
    r
}

/// Decode the payload of a string whose header (`h` bytes) starts at `pos`.
fn finish_str(buf: &Vec<u8>, pos: usize, h: usize, l: u64) -> (r: ValueStep)
    requires
        pos + h <= buf@.len(),
        1 <= h <= 8,
        l <= u32::MAX,
    ensures
        match r {
            ValueStep::More => str_at(buf@.skip(pos as int), h as nat, l as nat) is More,
            ValueStep::Bad => false,
            ValueStep::Found(v, end) => pos < end <= buf@.len() && v.valid() && str_at(
                buf@.skip(pos as int),
                h as nat,
                l as nat,
            ) == ParseOut::Found(v@, (end - pos) as nat),
        },
{
    let remaining: usize = buf.len() - pos;
    if (remaining as u64) < (h as u64) + l {
        ValueStep::More
    } else {
        let start = pos + h;
        let end = start + (l as usize);
        let data = copy_range(buf, start, end);
        proof {
            assert(buf@.subrange(start as int, end as int) =~= buf@.skip(pos as int).subrange(
                h as int,
                (h + l) as int,
            ));
        }
        ValueStep::Found(WireValue::Str(data), end)
    }
}

/// Decode the payload of a binary blob whose header starts at `pos`.
fn finish_bin(buf: &Vec<u8>, pos: usize, h: usize, l: u64) -> (r: ValueStep)
    requires
        pos + h <= buf@.len(),
        1 <= h <= 8,
        l <= u32::MAX,
    ensures
        match r {
            ValueStep::More => bin_at(buf@.skip(pos as int), h as nat, l as nat) is More,
            ValueStep::Bad => false,
            ValueStep::Found(v, end) => pos < end <= buf@.len() && v.valid() && bin_at(
                buf@.skip(pos as int),
                h as nat,
                l as nat,
            ) == ParseOut::Found(v@, (end - pos) as nat),
        },
{
    let remaining: usize = buf.len() - pos;
    if (remaining as u64) < (h as u64) + l {
        ValueStep::More
    } else {
        let start = pos + h;
        let end = start + (l as usize);
        let data = copy_range(buf, start, end);
        proof {
            assert(buf@.subrange(start as int, end as int) =~= buf@.skip(pos as int).subrange(
                h as int,
                (h + l) as int,
            ));
        }
        ValueStep::Found(WireValue::Bin(data), end)
    }
}

/// Decode the payload of an extension value whose header starts at `pos`;
/// `tb` is its type-tag byte.
fn finish_ext(buf: &Vec<u8>, pos: usize, h: usize, l: u64, tb: u8) -> (r: ValueStep)
    requires
        pos + h <= buf@.len(),
        1 <= h <= 8,
        l <= u32::MAX,
    ensures
        match r {
            ValueStep::More => ext_at(buf@.skip(pos as int), h as nat, l as nat, tb) is More,
            ValueStep::Bad => false,
            ValueStep::Found(v, end) => pos < end <= buf@.len() && v.valid() && ext_at(
                buf@.skip(pos as int),
                h as nat,
                l as nat,
                tb,
            ) == ParseOut::Found(v@, (end - pos) as nat),
        },
{
    let remaining: usize = buf.len() - pos;
    if (remaining as u64) < (h as u64) + l {
        ValueStep::More
    } else {
        let start = pos + h;
        let end = start + (l as usize);
        let data = copy_range(buf, start, end);
        let t: i8 = if tb >= 0x80 {
            ((tb as i16) - 0x100) as i8
        } else {
            tb as i8
        };
        proof {
            assert(buf@.subrange(start as int, end as int) =~= buf@.skip(pos as int).subrange(
                h as int,
                (h + l) as int,
            ));
        }
        ValueStep::Found(WireValue::Ext(t, data), end)
    }
}


proof fn lemma_cont_list_nil(r: ListOut)
    ensures
        cont_list(Seq::empty(), 0, r) == r,
{
    match r {
        ListOut::Found(vs, c) => {
            assert(Seq::<WireVal>::empty() + vs =~= vs);
        },
        _ => {},
    }
}

proof fn lemma_cont_pairs_nil(r: PairsOut)
    ensures
        cont_pairs(Seq::empty(), 0, r) == r,
{
    match r {
        PairsOut::Found(ps, c) => {
            assert(Seq::<(WireVal, WireVal)>::empty() + ps =~= ps);
        },
        _ => {},
    }
}

/// Decode the `n` elements of an array whose header (`h` bytes) starts at
/// `pos`.
#[verifier::loop_isolation(false)]
#[verifier::rlimit(100)]
#[verifier::spinoff_prover]
fn finish_list(buf: &Vec<u8>, pos: usize, h: usize, n: u64) -> (r: ValueStep)
    requires
        pos + h <= buf@.len(),
        1 <= h <= 8,
        n <= u32::MAX,
    ensures
        match r {
            ValueStep::More => arr_or_map(buf@.skip((pos + h) as int), h as nat, n as nat, true)
                is More,
            ValueStep::Bad => arr_or_map(buf@.skip((pos + h) as int), h as nat, n as nat, true)
                is Bad,
            ValueStep::Found(v, end) => pos < end <= buf@.len() && v.valid() && arr_or_map(
                buf@.skip((pos + h) as int),
                h as nat,
                n as nat,
                true,
            ) == ParseOut::Found(v@, (end - pos) as nat),
        },
    decreases buf@.len() - pos, 0nat,
{
    let blen = buf.len();
    let mut done: Vec<WireValue> = Vec::new();
    let mut cur: usize = pos + h;
    let mut j: u64 = 0;
    let ghost body0 = buf@.skip((pos + h) as int);
    proof {
        lemma_cont_list_nil(parse_list(body0, n as nat));
        assert(models(done@) =~= Seq::<WireVal>::empty());
    }
    while j < n
        invariant
            pos + h <= cur <= blen,
            j <= n,
            done@.len() == j,
            forall|i2: int| 0 <= i2 < done@.len() ==> (#[trigger] done@[i2]).valid(),
            parse_list(body0, n as nat) == cont_list(
                models(done@),
                (cur - (pos + h)) as nat,
                parse_list(buf@.skip(cur as int), (n - j) as nat),
            ),
        decreases n - j,
    {
        let ghost scur = buf@.skip(cur as int);
        let ghost m = (n - j) as nat;
        match parse_value(buf, cur) {
            ValueStep::More => {
                return ValueStep::More;
            },
            ValueStep::Bad => {
                return ValueStep::Bad;
            },
            ValueStep::Found(v, np) => {
                proof {
                    let c = (np - cur) as nat;
                    assert(scur.skip(c as int) =~= buf@.skip(np as int));
                    assert(parse_list(scur, m) == cont_list(
                        seq![v@],
                        c,
                        parse_list(buf@.skip(np as int), (m - 1) as nat),
                    ));
                    lemma_cont_list_step(
                        models(done@),
                        (cur - (pos + h)) as nat,
                        v@,
                        c,
                        parse_list(buf@.skip(np as int), (m - 1) as nat),
                    );
                    lemma_models_push(done@, v);
                }
                done.push(v);
                cur = np;
                j = j + 1;
            },
        }
    }
    proof {
        assert(models(done@) + Seq::<WireVal>::empty() =~= models(done@));
        lemma_array_model(done);
    }
    ValueStep::Found(WireValue::Array(done), cur)
}

/// Decode the `n` key-value pairs of a map whose header (`h` bytes) starts
/// at `pos`.
#[verifier::loop_isolation(false)]
#[verifier::rlimit(100)]
#[verifier::spinoff_prover]
fn finish_map(buf: &Vec<u8>, pos: usize, h: usize, n: u64) -> (r: ValueStep)
    requires
        pos + h <= buf@.len(),
        1 <= h <= 8,
        n <= u32::MAX,
    ensures
        match r {
            ValueStep::More => arr_or_map(buf@.skip((pos + h) as int), h as nat, n as nat, false)
                is More,
            ValueStep::Bad => arr_or_map(buf@.skip((pos + h) as int), h as nat, n as nat, false)
                is Bad,
            ValueStep::Found(v, end) => pos < end <= buf@.len() && v.valid() && arr_or_map(
                buf@.skip((pos + h) as int),
                h as nat,
                n as nat,
                false,
            ) == ParseOut::Found(v@, (end - pos) as nat),
        },
    decreases buf@.len() - pos, 0nat,
{
    let blen = buf.len();
    let mut done: Vec<(WireValue, WireValue)> = Vec::new();
    let mut cur: usize = pos + h;
    let mut j: u64 = 0;
    let ghost body0 = buf@.skip((pos + h) as int);
    proof {
        lemma_cont_pairs_nil(parse_pairs(body0, n as nat));
        assert(pair_models(done@) =~= Seq::<(WireVal, WireVal)>::empty());
    }
    while j < n
        invariant
            pos + h <= cur <= blen,
            j <= n,
            done@.len() == j,
            forall|i2: int| 0 <= i2 < done@.len() ==> (#[trigger] done@[i2]).0.valid()
                && done@[i2].1.valid(),
            parse_pairs(body0, n as nat) == cont_pairs(
                pair_models(done@),
                (cur - (pos + h)) as nat,
                parse_pairs(buf@.skip(cur as int), (n - j) as nat),
            ),
        decreases n - j,
    {
        let ghost scur = buf@.skip(cur as int);
        let ghost m = (n - j) as nat;
        let first = match parse_value(buf, cur) {
            ValueStep::More => {
                return ValueStep::More;
            },
            ValueStep::Bad => {
                return ValueStep::Bad;
            },
            ValueStep::Found(k, np1) => (k, np1),
        };
        let (k, np1) = first;
        proof {
            let ck = (np1 - cur) as nat;
            assert(scur.skip(ck as int) =~= buf@.skip(np1 as int));
        }
        let second = match parse_value(buf, np1) {
            ValueStep::More => {
                return ValueStep::More;
            },
            ValueStep::Bad => {
                return ValueStep::Bad;
            },
            ValueStep::Found(v, np2) => (v, np2),
        };
        let (v, np2) = second;
        proof {
            let ck = (np1 - cur) as nat;
            let cv = (np2 - np1) as nat;
            assert(scur.skip((ck + cv) as int) =~= buf@.skip(np2 as int));
            assert(parse_pairs(scur, m) == cont_pairs(
                seq![(k@, v@)],
                (ck + cv) as nat,
                parse_pairs(buf@.skip(np2 as int), (m - 1) as nat),
            ));
            lemma_cont_pairs_step(
                pair_models(done@),
                (cur - (pos + h)) as nat,
                (k@, v@),
                (ck + cv) as nat,
                parse_pairs(buf@.skip(np2 as int), (m - 1) as nat),
            );
            lemma_pair_models_push(done@, (k, v));
        }
        done.push((k, v));
        cur = np2;
        j = j + 1;
    }
    proof {
        assert(pair_models(done@) + Seq::<(WireVal, WireVal)>::empty() =~= pair_models(done@));
        lemma_dict_model(done);
    }
    ValueStep::Found(WireValue::Dict(done), cur)
}


/// Decode one value whose marker byte `b` (already read at `pos`) lies in
/// the range of the multi-byte number, string-header, array and map
/// formats.
#[verifier::loop_isolation(false)]
#[verifier::rlimit(100)]
#[verifier::spinoff_prover]
fn parse_value_hi(buf: &Vec<u8>, pos: usize, b: u8) -> (r: ValueStep)
    requires
        pos < buf@.len(),
        buf@[pos as int] == b,
        0xca <= b <= 0xdf,
    ensures
        match r {
            ValueStep::More => parse_val(buf@.skip(pos as int)) is More,
            ValueStep::Bad => parse_val(buf@.skip(pos as int)) is Bad,
            ValueStep::Found(v, end) => pos < end <= buf@.len() && v.valid() && parse_val(
                buf@.skip(pos as int),
            ) == ParseOut::Found(v@, (end - pos) as nat),
        },
    decreases buf@.len() - pos, 1nat,
{
    let blen = buf.len();
    let ghost s = buf@.skip(pos as int);
    let remaining: usize = blen - pos;
    proof {
        assert(s[0] == b);
        assert(s.len() == blen - pos);
        lemma_pow256_vals();
    }
    if b == 0xca {
        if remaining < 5 {
            ValueStep::More
        } else {
            let l = read_be(buf, pos + 1, 4);
            proof {
                assert(buf@.subrange((pos + 1) as int, (pos + 5) as int) =~= s.subrange(1, 5));
            }
            ValueStep::Found(WireValue::F32(l as u32), pos + 5)
        }
    } else if b == 0xcb {
        if remaining < 9 {
            ValueStep::More
        } else {
            let l = read_be(buf, pos + 1, 8);
            proof {
                assert(buf@.subrange((pos + 1) as int, (pos + 9) as int) =~= s.subrange(1, 9));
            }
            ValueStep::Found(WireValue::F64(l), pos + 9)
        }
    } else if b == 0xcc {
        if remaining < 2 {
            ValueStep::More
        } else {
            proof {
                assert(s[1] == buf@[pos + 1]);
            }
            ValueStep::Found(WireValue::Uint(buf[pos + 1] as u64), pos + 2)
        }
    } else if b == 0xcd {
        if remaining < 3 {
            ValueStep::More
        } else {
            let l = read_be(buf, pos + 1, 2);
            proof {
                assert(buf@.subrange((pos + 1) as int, (pos + 3) as int) =~= s.subrange(1, 3));
            }
            ValueStep::Found(WireValue::Uint(l), pos + 3)
        }
    } else if b == 0xce {
        if remaining < 5 {
            ValueStep::More
        } else {
            let l = read_be(buf, pos + 1, 4);
            proof {
                assert(buf@.subrange((pos + 1) as int, (pos + 5) as int) =~= s.subrange(1, 5));
            }
            ValueStep::Found(WireValue::Uint(l), pos + 5)
        }
    } else if b == 0xcf {
        if remaining < 9 {
            ValueStep::More
        } else {
            let l = read_be(buf, pos + 1, 8);
            proof {
                assert(buf@.subrange((pos + 1) as int, (pos + 9) as int) =~= s.subrange(1, 9));
            }
            ValueStep::Found(WireValue::Uint(l), pos + 9)
        }
    } else if b == 0xd0 {
        if remaining < 2 {
            ValueStep::More
        } else {
            proof {
                assert(s[1] == buf@[pos + 1]);
            }
            let raw = buf[pos + 1];
            if raw >= 0x80 {
                ValueStep::Found(WireValue::Nint((raw as i64) - 0x100), pos + 2)
            } else {
                ValueStep::Found(WireValue::Uint(raw as u64), pos + 2)
            }
        }
    } else if b == 0xd1 {
        if remaining < 3 {
            ValueStep::More
        } else {
            let raw = read_be(buf, pos + 1, 2);
            proof {
                assert(buf@.subrange((pos + 1) as int, (pos + 3) as int) =~= s.subrange(1, 3));
            }
            if raw >= 0x8000 {
                ValueStep::Found(WireValue::Nint((raw as i64) - 0x10000), pos + 3)
            } else {
                ValueStep::Found(WireValue::Uint(raw), pos + 3)
            }
        }
    } else if b == 0xd2 {
        if remaining < 5 {
            ValueStep::More
        } else {
            let raw = read_be(buf, pos + 1, 4);
            proof {
                assert(buf@.subrange((pos + 1) as int, (pos + 5) as int) =~= s.subrange(1, 5));
            }
            if raw >= 0x80000000 {
                ValueStep::Found(WireValue::Nint((raw as i64) - 0x100000000), pos + 5)
            } else {
                ValueStep::Found(WireValue::Uint(raw), pos + 5)
            }
        }
    } else if b == 0xd3 {
        if remaining < 9 {
            ValueStep::More
        } else {
            let raw = read_be(buf, pos + 1, 8);
            proof {
                assert(buf@.subrange((pos + 1) as int, (pos + 9) as int) =~= s.subrange(1, 9));
            }
            if raw >= 0x8000000000000000 {
                let mm: u64 = u64::MAX - raw;
                ValueStep::Found(WireValue::Nint(-(mm as i64) - 1), pos + 9)
            } else {
                ValueStep::Found(WireValue::Uint(raw), pos + 9)
            }
        }
    } else if b == 0xd4 {
        if remaining < 2 {
            ValueStep::More
        } else {
            proof {
                assert(s[1] == buf@[pos + 1]);
            }
            finish_ext(buf, pos, 2, 1, buf[pos + 1])
        }
    } else if b == 0xd5 {
        if remaining < 2 {
            ValueStep::More
        } else {
            proof {
                assert(s[1] == buf@[pos + 1]);
            }
            finish_ext(buf, pos, 2, 2, buf[pos + 1])
        }
    } else if b == 0xd6 {
        if remaining < 2 {
            ValueStep::More
        } else {
            proof {
                assert(s[1] == buf@[pos + 1]);
            }
            finish_ext(buf, pos, 2, 4, buf[pos + 1])
        }
    } else if b == 0xd7 {
        if remaining < 2 {
            ValueStep::More
        } else {
            proof {
                assert(s[1] == buf@[pos + 1]);
            }
            finish_ext(buf, pos, 2, 8, buf[pos + 1])
        }
    } else if b == 0xd8 {
        if remaining < 2 {
            ValueStep::More
        } else {
            proof {
                assert(s[1] == buf@[pos + 1]);
            }
            finish_ext(buf, pos, 2, 16, buf[pos + 1])
        }
    } else if b == 0xd9 {
        if remaining < 2 {
            ValueStep::More
        } else {
            proof {
                assert(s[1] == buf@[pos + 1]);
            }
            finish_str(buf, pos, 2, buf[pos + 1] as u64)
        }
    } else if b == 0xda {
        if remaining < 3 {
            ValueStep::More
        } else {
            let l = read_be(buf, pos + 1, 2);
            proof {
                assert(buf@.subrange((pos + 1) as int, (pos + 3) as int) =~= s.subrange(1, 3));
            }
            finish_str(buf, pos, 3, l)
        }
    } else if b == 0xdb {
        if remaining < 5 {
            ValueStep::More
        } else {
            let l = read_be(buf, pos + 1, 4);
            proof {
                assert(buf@.subrange((pos + 1) as int, (pos + 5) as int) =~= s.subrange(1, 5));
            }
            finish_str(buf, pos, 5, l)
        }
    } else if b == 0xdc {
        if remaining < 3 {
            ValueStep::More
        } else {
            let n = read_be(buf, pos + 1, 2);
            let r = finish_list(buf, pos, 3, n);
            proof {
                assert(buf@.subrange((pos + 1) as int, (pos + 3) as int) =~= s.subrange(1, 3));
                assert(s.skip(3) =~= buf@.skip((pos + 3) as int));
            }
            r
        }
    } else if b == 0xdd {
        if remaining < 5 {
            ValueStep::More
        } else {
            let n = read_be(buf, pos + 1, 4);
            let r = finish_list(buf, pos, 5, n);
            proof {
                assert(buf@.subrange((pos + 1) as int, (pos + 5) as int) =~= s.subrange(1, 5));
                assert(s.skip(5) =~= buf@.skip((pos + 5) as int));
            }
            r
        }
    } else if b == 0xde {
        if remaining < 3 {
            ValueStep::More
        } else {
            let n = read_be(buf, pos + 1, 2);
            let r = finish_map(buf, pos, 3, n);
            proof {
                assert(buf@.subrange((pos + 1) as int, (pos + 3) as int) =~= s.subrange(1, 3));
                assert(s.skip(3) =~= buf@.skip((pos + 3) as int));
            }
            r
        }
    } else if b == 0xdf {
        if remaining < 5 {
            ValueStep::More
        } else {
            let n = read_be(buf, pos + 1, 4);
            let r = finish_map(buf, pos, 5, n);
            proof {
                assert(buf@.subrange((pos + 1) as int, (pos + 5) as int) =~= s.subrange(1, 5));
                assert(s.skip(5) =~= buf@.skip((pos + 5) as int));
            }
            r
        }
    } else {
        proof {
            assert(false);
        }
        ValueStep::Bad
    }
}

/// Decode one wire value starting at `pos`: the executable counterpart of
/// `parse_val`, which it follows exactly.
#[verifier::rlimit(100)]
#[verifier::spinoff_prover]
pub fn parse_value(buf: &Vec<u8>, pos: usize) -> (r: ValueStep)
    requires
        pos <= buf@.len(),
    ensures
        match r {
            ValueStep::More => parse_val(buf@.skip(pos as int)) is More,
            ValueStep::Bad => parse_val(buf@.skip(pos as int)) is Bad,
            ValueStep::Found(v, end) => pos < end <= buf@.len() && v.valid() && parse_val(
                buf@.skip(pos as int),
            ) == ParseOut::Found(v@, (end - pos) as nat),
        },
    decreases buf@.len() - pos, 2nat,
{
    let blen = buf.len();
    let ghost s = buf@.skip(pos as int);
    if pos == blen {
        return ValueStep::More;
    }
    let remaining: usize = blen - pos;
    let b = buf[pos];
    proof {
        assert(s[0] == b);
        assert(s.len() == blen - pos);
        lemma_pow256_vals();
    }
    if b < 0x80 {
        ValueStep::Found(WireValue::Uint(b as u64), pos + 1)
    } else if b < 0x90 {
        let r = finish_map(buf, pos, 1, (b - 0x80) as u64);
        proof {
            assert(s.skip(1) =~= buf@.skip((pos + 1) as int));
        }
        r
    } else if b < 0xa0 {
        let r = finish_list(buf, pos, 1, (b - 0x90) as u64);
        proof {
            assert(s.skip(1) =~= buf@.skip((pos + 1) as int));
        }
        r
    } else if b < 0xc0 {
        finish_str(buf, pos, 1, (b - 0xa0) as u64)
    } else if b == 0xc0 {
        ValueStep::Found(WireValue::Nil, pos + 1)
    } else if b == 0xc1 {
        ValueStep::Bad
    } else if b == 0xc2 {
        ValueStep::Found(WireValue::Bool(false), pos + 1)
    } else if b == 0xc3 {
        ValueStep::Found(WireValue::Bool(true), pos + 1)
    } else if b == 0xc4 {
        if remaining < 2 {
            ValueStep::More
        } else {
            proof {
                assert(s[1] == buf@[pos + 1]);
            }
            finish_bin(buf, pos, 2, buf[pos + 1] as u64)
        }
    } else if b == 0xc5 {
        if remaining < 3 {
            ValueStep::More
        } else {
            let l = read_be(buf, pos + 1, 2);
            proof {
                assert(buf@.subrange((pos + 1) as int, (pos + 3) as int) =~= s.subrange(1, 3));
            }
            finish_bin(buf, pos, 3, l)
        }
    } else if b == 0xc6 {
        if remaining < 5 {
            ValueStep::More
        } else {
            let l = read_be(buf, pos + 1, 4);
            proof {
                assert(buf@.subrange((pos + 1) as int, (pos + 5) as int) =~= s.subrange(1, 5));
            }
            finish_bin(buf, pos, 5, l)
        }
    } else if b == 0xc7 {
        if remaining < 3 {
            ValueStep::More
        } else {
            proof {
                assert(s[1] == buf@[pos + 1]);
                assert(s[2] == buf@[pos + 2]);
            }
            finish_ext(buf, pos, 3, buf[pos + 1] as u64, buf[pos + 2])
        }
    } else if b == 0xc8 {
        if remaining < 4 {
            ValueStep::More
        } else {
            let l = read_be(buf, pos + 1, 2);
            proof {
                assert(buf@.subrange((pos + 1) as int, (pos + 3) as int) =~= s.subrange(1, 3));
                assert(s[3] == buf@[pos + 3]);
            }
            finish_ext(buf, pos, 4, l, buf[pos + 3])
        }
    } else if b == 0xc9 {
        if remaining < 6 {
            ValueStep::More
        } else {
            let l = read_be(buf, pos + 1, 4);
            proof {
                assert(buf@.subrange((pos + 1) as int, (pos + 5) as int) =~= s.subrange(1, 5));
                assert(s[5] == buf@[pos + 5]);
            }
            finish_ext(buf, pos, 6, l, buf[pos + 5])
        }
    } else if b <= 0xdf {
        parse_value_hi(buf, pos, b)
    } else {
        ValueStep::Found(WireValue::Nint((b as i64) - 0x100), pos + 1)
    }
}

} // verus!
