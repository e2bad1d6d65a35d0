//! The codec laws: decoding inverts encoding.
//!
//! `lemma_parse_enc` is the round-trip law — parsing the canonical encoding
//! of any well-formed value, with arbitrary bytes behind it, finds exactly
//! that value and consumes exactly its encoding. `lemma_parse_enc_prefix`
//! is partial-read resilience — every strict prefix of an encoding parses
//! to "read more", never to a wrong value or an error.
use vstd::prelude::*;

use crate::encode::{
    be_bytes, enc, enc_binhead, enc_exthead, enc_int, enc_list, enc_pairs, enc_strhead,
    lemma_be_bytes_len, lemma_from_be_bytes, tag_byte,
};
use crate::parse::{
    bin_at, ext_at, lemma_pow256_vals, parse_list, parse_pairs, parse_val, signed_of, str_at,
    tag_of, ListOut, PairsOut, ParseOut,
};
use crate::value::{wf_val, WireVal};

verus! {

broadcast use vstd::seq::axiom_seq_index_decreases, vstd::seq::axiom_seq_subrange_decreases,
    vstd::std_specs::vec::group_vec_axioms;

/// Every encoding starts with at least its marker byte.
pub proof fn lemma_enc_len_pos(v: WireVal)
    ensures
        enc(v).len() >= 1,
{
    match v {
        WireVal::Int(i) => {
            assert(enc(v) == enc_int(i));
        },
        _ => {},
    }
}

proof fn lemma_parse_enc_int(i: int, rest: Seq<u8>)
    requires
        -0x8000000000000000 <= i < 0x10000000000000000,
    ensures
        parse_val(enc_int(i) + rest) == ParseOut::Found(WireVal::Int(i), enc_int(i).len()),
{
    lemma_pow256_vals();
    let s = enc_int(i) + rest;
    if 0 <= i < 0x80 {
        assert(s[0] == i as u8);
    } else if 0x80 <= i < 0x100 {
        lemma_be_bytes_len(i, 1);
        assert(be_bytes(i, 1) =~= seq![(i % 256) as u8]);
        assert(s[0] == 0xccu8 && s[1] == (i % 256) as u8);
    } else if 0x100 <= i < 0x10000 {
        lemma_be_bytes_len(i, 2);
        assert(s[0] == 0xcdu8);
        assert(s.subrange(1, 3) =~= be_bytes(i, 2));
        lemma_from_be_bytes(i, 2);
    } else if 0x10000 <= i < 0x100000000 {
        lemma_be_bytes_len(i, 4);
        assert(s[0] == 0xceu8);
        assert(s.subrange(1, 5) =~= be_bytes(i, 4));
        lemma_from_be_bytes(i, 4);
    } else if 0x100000000 <= i {
        lemma_be_bytes_len(i, 8);
        assert(s[0] == 0xcfu8);
        assert(s.subrange(1, 9) =~= be_bytes(i, 8));
        lemma_from_be_bytes(i, 8);
    } else if -0x20 <= i < 0 {
        assert(s[0] == (i + 0x100) as u8);
        assert(s[0] >= 0xe0);
    } else if -0x80 <= i < -0x20 {
        lemma_be_bytes_len(i + 0x100, 1);
        assert(be_bytes(i + 0x100, 1) =~= seq![((i + 0x100) % 256) as u8]);
        assert(s[0] == 0xd0u8 && s[1] == ((i + 0x100) % 256) as u8);
        assert(signed_of(s[1] as int, 1) == i);
    } else if -0x8000 <= i < -0x80 {
        lemma_be_bytes_len(i + 0x10000, 2);
        assert(s[0] == 0xd1u8);
        assert(s.subrange(1, 3) =~= be_bytes(i + 0x10000, 2));
        lemma_from_be_bytes(i + 0x10000, 2);
        assert(signed_of(i + 0x10000, 2) == i);
    } else if -0x80000000 <= i < -0x8000 {
        lemma_be_bytes_len(i + 0x100000000, 4);
        assert(s[0] == 0xd2u8);
        assert(s.subrange(1, 5) =~= be_bytes(i + 0x100000000, 4));
        lemma_from_be_bytes(i + 0x100000000, 4);
        assert(signed_of(i + 0x100000000, 4) == i);
    } else {
        lemma_be_bytes_len(i + 0x10000000000000000, 8);
        assert(s[0] == 0xd3u8);
        assert(s.subrange(1, 9) =~= be_bytes(i + 0x10000000000000000, 8));
        lemma_from_be_bytes(i + 0x10000000000000000, 8);
        assert(signed_of(i + 0x10000000000000000, 8) == i);
    }
}

proof fn lemma_parse_enc_str(sv: Seq<u8>, rest: Seq<u8>)
    requires
        sv.len() <= u32::MAX,
    ensures
        parse_val((enc_strhead(sv.len() as int) + sv) + rest) == ParseOut::Found(
            WireVal::Str(sv),
            enc_strhead(sv.len() as int).len() + sv.len(),
        ),
{
    lemma_pow256_vals();
    let l = sv.len() as int;
    let s = (enc_strhead(l) + sv) + rest;
    if l < 0x20 {
        assert(s[0] == (0xa0 + l) as u8);
        assert(s.subrange(1, 1 + l) =~= sv);
        assert(str_at(s, 1, sv.len()) == ParseOut::Found(WireVal::Str(sv), 1 + sv.len()));
    } else if l < 0x100 {
        lemma_be_bytes_len(l, 1);
        assert(be_bytes(l, 1) =~= seq![(l % 256) as u8]);
        assert(s[0] == 0xd9u8 && s[1] == (l % 256) as u8);
        assert(s.subrange(2, 2 + l) =~= sv);
        assert(str_at(s, 2, sv.len()) == ParseOut::Found(WireVal::Str(sv), 2 + sv.len()));
    } else if l < 0x10000 {
        lemma_be_bytes_len(l, 2);
        assert(s[0] == 0xdau8);
        assert(s.subrange(1, 3) =~= be_bytes(l, 2));
        lemma_from_be_bytes(l, 2);
        assert(s.subrange(3, 3 + l) =~= sv);
        assert(str_at(s, 3, sv.len()) == ParseOut::Found(WireVal::Str(sv), 3 + sv.len()));
    } else {
        lemma_be_bytes_len(l, 4);
        assert(s[0] == 0xdbu8);
        assert(s.subrange(1, 5) =~= be_bytes(l, 4));
        lemma_from_be_bytes(l, 4);
        assert(s.subrange(5, 5 + l) =~= sv);
        assert(str_at(s, 5, sv.len()) == ParseOut::Found(WireVal::Str(sv), 5 + sv.len()));
    }
}

proof fn lemma_parse_enc_bin(bv: Seq<u8>, rest: Seq<u8>)
    requires
        bv.len() <= u32::MAX,
    ensures
        parse_val((enc_binhead(bv.len() as int) + bv) + rest) == ParseOut::Found(
            WireVal::Bin(bv),
            enc_binhead(bv.len() as int).len() + bv.len(),
        ),
{
    lemma_pow256_vals();
    let l = bv.len() as int;
    let s = (enc_binhead(l) + bv) + rest;
    if l < 0x100 {
        lemma_be_bytes_len(l, 1);
        assert(be_bytes(l, 1) =~= seq![(l % 256) as u8]);
        assert(s[0] == 0xc4u8 && s[1] == (l % 256) as u8);
        assert(s.subrange(2, 2 + l) =~= bv);
        assert(bin_at(s, 2, bv.len()) == ParseOut::Found(WireVal::Bin(bv), 2 + bv.len()));
    } else if l < 0x10000 {
        lemma_be_bytes_len(l, 2);
        assert(s[0] == 0xc5u8);
        assert(s.subrange(1, 3) =~= be_bytes(l, 2));
        lemma_from_be_bytes(l, 2);
        assert(s.subrange(3, 3 + l) =~= bv);
        assert(bin_at(s, 3, bv.len()) == ParseOut::Found(WireVal::Bin(bv), 3 + bv.len()));
    } else {
        lemma_be_bytes_len(l, 4);
        assert(s[0] == 0xc6u8);
        assert(s.subrange(1, 5) =~= be_bytes(l, 4));
        lemma_from_be_bytes(l, 4);
        assert(s.subrange(5, 5 + l) =~= bv);
        assert(bin_at(s, 5, bv.len()) == ParseOut::Found(WireVal::Bin(bv), 5 + bv.len()));
    }
}

proof fn lemma_parse_enc_ext(t: i8, dv: Seq<u8>, rest: Seq<u8>)
    requires
        dv.len() <= u32::MAX,
    ensures
        parse_val((enc_exthead(dv.len() as int, t) + dv) + rest) == ParseOut::Found(
            WireVal::Ext(t, dv),
            enc_exthead(dv.len() as int, t).len() + dv.len(),
        ),
{
    lemma_pow256_vals();
    let l = dv.len() as int;
    let s = (enc_exthead(l, t) + dv) + rest;
    assert(tag_of(tag_byte(t)) == t);
    if l == 1 || l == 2 || l == 4 || l == 8 || l == 16 {
        assert(s[0] == enc_exthead(l, t)[0] && s[1] == tag_byte(t));
        assert(s.subrange(2, 2 + l) =~= dv);
        assert(ext_at(s, 2, dv.len(), tag_byte(t)) == ParseOut::Found(
            WireVal::Ext(t, dv),
            2 + dv.len(),
        ));
    } else if l < 0x100 {
        lemma_be_bytes_len(l, 1);
        assert(be_bytes(l, 1) =~= seq![(l % 256) as u8]);
        assert(s[0] == 0xc7u8 && s[1] == (l % 256) as u8 && s[2] == tag_byte(t));
        assert(s.subrange(3, 3 + l) =~= dv);
        assert(ext_at(s, 3, dv.len(), tag_byte(t)) == ParseOut::Found(
            WireVal::Ext(t, dv),
            3 + dv.len(),
        ));
    } else if l < 0x10000 {
        lemma_be_bytes_len(l, 2);
        assert(s[0] == 0xc8u8);
        assert(s.subrange(1, 3) =~= be_bytes(l, 2));
        lemma_from_be_bytes(l, 2);
        assert(s[3] == tag_byte(t));
        assert(s.subrange(4, 4 + l) =~= dv);
        assert(ext_at(s, 4, dv.len(), tag_byte(t)) == ParseOut::Found(
            WireVal::Ext(t, dv),
            4 + dv.len(),
        ));
    } else {
        lemma_be_bytes_len(l, 4);
        assert(s[0] == 0xc9u8);
        assert(s.subrange(1, 5) =~= be_bytes(l, 4));
        lemma_from_be_bytes(l, 4);
        assert(s[5] == tag_byte(t));
        assert(s.subrange(6, 6 + l) =~= dv);
        assert(ext_at(s, 6, dv.len(), tag_byte(t)) == ParseOut::Found(
            WireVal::Ext(t, dv),
            6 + dv.len(),
        ));
    }
}


/// Round trip: parsing the canonical encoding of a well-formed value, with
/// any bytes behind it, finds that value and consumes exactly its encoding.
pub proof fn lemma_parse_enc(v: WireVal, rest: Seq<u8>)
    requires
        wf_val(v),
    ensures
        parse_val(enc(v) + rest) == ParseOut::Found(v, enc(v).len()),
    decreases v, 0nat,
{
    lemma_pow256_vals();
    let s = enc(v) + rest;
    match v {
        WireVal::Nil => {
            assert(s[0] == 0xc0u8);
        },
        WireVal::Bool(b) => {
            if b {
                assert(s[0] == 0xc3u8);
            } else {
                assert(s[0] == 0xc2u8);
            }
        },
        WireVal::Int(i) => {
            lemma_parse_enc_int(i, rest);
        },
        WireVal::F32(bits) => {
            lemma_be_bytes_len(bits as int, 4);
            assert(s[0] == 0xcau8);
            assert(s.subrange(1, 5) =~= be_bytes(bits as int, 4));
            lemma_from_be_bytes(bits as int, 4);
        },
        WireVal::F64(bits) => {
            lemma_be_bytes_len(bits as int, 8);
            assert(s[0] == 0xcbu8);
            assert(s.subrange(1, 9) =~= be_bytes(bits as int, 8));
            lemma_from_be_bytes(bits as int, 8);
        },
        WireVal::Str(sv) => {
            lemma_parse_enc_str(sv, rest);
            assert(enc(v) + rest =~= (enc_strhead(sv.len() as int) + sv) + rest);
        },
        WireVal::Bin(bv) => {
            lemma_parse_enc_bin(bv, rest);
            assert(enc(v) + rest =~= (enc_binhead(bv.len() as int) + bv) + rest);
        },
        WireVal::Ext(t, dv) => {
            lemma_parse_enc_ext(t, dv, rest);
            assert(enc(v) + rest =~= (enc_exthead(dv.len() as int, t) + dv) + rest);
        },
        WireVal::Array(a) => {
            let n = a.len();
            let body = enc_list(a);
            lemma_parse_list_enc(a, rest);
            if n < 0x10 {
                assert(s[0] == (0x90 + n) as u8);
                assert(s.skip(1) =~= body + rest);
            } else if n < 0x10000 {
                lemma_be_bytes_len(n as int, 2);
                assert(s[0] == 0xdcu8);
                assert(s.subrange(1, 3) =~= be_bytes(n as int, 2));
                lemma_from_be_bytes(n as int, 2);
                assert(s.skip(3) =~= body + rest);
            } else {
                lemma_be_bytes_len(n as int, 4);
                assert(s[0] == 0xddu8);
                assert(s.subrange(1, 5) =~= be_bytes(n as int, 4));
                lemma_from_be_bytes(n as int, 4);
                assert(s.skip(5) =~= body + rest);
            }
        },
        WireVal::Dict(m) => {
            let n = m.len();
            let body = enc_pairs(m);
            lemma_parse_pairs_enc(m, rest);
            if n < 0x10 {
                assert(s[0] == (0x80 + n) as u8);
                assert(s.skip(1) =~= body + rest);
            } else if n < 0x10000 {
                lemma_be_bytes_len(n as int, 2);
                assert(s[0] == 0xdeu8);
                assert(s.subrange(1, 3) =~= be_bytes(n as int, 2));
                lemma_from_be_bytes(n as int, 2);
                assert(s.skip(3) =~= body + rest);
            } else {
                lemma_be_bytes_len(n as int, 4);
                assert(s[0] == 0xdfu8);
                assert(s.subrange(1, 5) =~= be_bytes(n as int, 4));
                lemma_from_be_bytes(n as int, 4);
                assert(s.skip(5) =~= body + rest);
            }
        },
    }
}

/// Round trip for a run of values, as `lemma_parse_enc` for one value.
pub proof fn lemma_parse_list_enc(a: Seq<WireVal>, rest: Seq<u8>)
    requires
        forall|i: int| 0 <= i < a.len() ==> wf_val(#[trigger] a[i]),
    ensures
        parse_list(enc_list(a) + rest, a.len()) == ListOut::Found(a, enc_list(a).len()),
    decreases a, 1nat,
{
    if a.len() == 0 {
        assert(a =~= Seq::<WireVal>::empty());
    } else {
        let e0 = enc(a[0]);
        let tail = enc_list(a.drop_first());
        let s = enc_list(a) + rest;
        lemma_enc_len_pos(a[0]);
        lemma_parse_enc(a[0], tail + rest);
        assert(enc_list(a) + rest =~= e0 + (tail + rest));
        assert(parse_val(s) == ParseOut::Found(a[0], e0.len()));
        assert(s.skip(e0.len() as int) =~= tail + rest);
        assert forall|i: int| 0 <= i < a.drop_first().len() implies wf_val(
            #[trigger] a.drop_first()[i],
        ) by {
            assert(a.drop_first()[i] == a[i + 1]);
        }
        lemma_parse_list_enc(a.drop_first(), rest);
        assert(seq![a[0]] + a.drop_first() =~= a);
    }
}

/// Round trip for a run of key-value pairs.
pub proof fn lemma_parse_pairs_enc(m: Seq<(WireVal, WireVal)>, rest: Seq<u8>)
    requires
        forall|i: int| 0 <= i < m.len() ==> wf_val((#[trigger] m[i]).0) && wf_val(m[i].1),
    ensures
        parse_pairs(enc_pairs(m) + rest, m.len()) == PairsOut::Found(m, enc_pairs(m).len()),
    decreases m, 1nat,
{
    if m.len() == 0 {
        assert(m =~= Seq::<(WireVal, WireVal)>::empty());
    } else {
        let ek = enc(m[0].0);
        let ev = enc(m[0].1);
        let tail = enc_pairs(m.drop_first());
        let s = enc_pairs(m) + rest;
        lemma_enc_len_pos(m[0].0);
        lemma_enc_len_pos(m[0].1);
        lemma_parse_enc(m[0].0, ev + (tail + rest));
        assert(enc_pairs(m) + rest =~= ek + (ev + (tail + rest)));
        assert(parse_val(s) == ParseOut::Found(m[0].0, ek.len()));
        assert(s.skip(ek.len() as int) =~= ev + (tail + rest));
        lemma_parse_enc(m[0].1, tail + rest);
        assert(s.skip((ek.len() + ev.len()) as int) =~= tail + rest);
        assert forall|i: int| 0 <= i < m.drop_first().len() implies wf_val(
            (#[trigger] m.drop_first()[i]).0,
        ) && wf_val(m.drop_first()[i].1) by {
            assert(m.drop_first()[i] == m[i + 1]);
        }
        lemma_parse_pairs_enc(m.drop_first(), rest);
        assert(m[0] == (m[0].0, m[0].1));
        assert(seq![(m[0].0, m[0].1)] + m.drop_first() =~= m);
    }
}


proof fn lemma_prefix_int(i: int, k: int)
    requires
        -0x8000000000000000 <= i < 0x10000000000000000,
        0 <= k < enc_int(i).len(),
    ensures
        parse_val(enc_int(i).take(k)) is More,
{
    lemma_pow256_vals();
    let p = enc_int(i).take(k);
    if k == 0 {
        assert(p =~= Seq::<u8>::empty());
    } else {
        assert(p[0] == enc_int(i)[0]);
        if 0x80 <= i < 0x100 {
            lemma_be_bytes_len(i, 1);
        } else if 0x100 <= i < 0x10000 {
            lemma_be_bytes_len(i, 2);
        } else if 0x10000 <= i < 0x100000000 {
            lemma_be_bytes_len(i, 4);
        } else if 0x100000000 <= i {
            lemma_be_bytes_len(i, 8);
        } else if -0x80 <= i < -0x20 {
            lemma_be_bytes_len(i + 0x100, 1);
        } else if -0x8000 <= i < -0x80 {
            lemma_be_bytes_len(i + 0x10000, 2);
        } else if -0x80000000 <= i < -0x8000 {
            lemma_be_bytes_len(i + 0x100000000, 4);
        } else if i < -0x80000000 {
            lemma_be_bytes_len(i + 0x10000000000000000, 8);
        }
    }
}

proof fn lemma_prefix_str(sv: Seq<u8>, k: int)
    requires
        sv.len() <= u32::MAX,
        0 <= k < enc_strhead(sv.len() as int).len() + sv.len(),
    ensures
        parse_val((enc_strhead(sv.len() as int) + sv).take(k)) is More,
{
    lemma_pow256_vals();
    let l = sv.len() as int;
    let e = enc_strhead(l) + sv;
    let p = e.take(k);
    if k == 0 {
        assert(p =~= Seq::<u8>::empty());
    } else {
        assert(p[0] == e[0]);
        if l < 0x20 {
            assert(str_at(p, 1, sv.len()) is More);
        } else if l < 0x100 {
            lemma_be_bytes_len(l, 1);
            if k >= 2 {
                assert(be_bytes(l, 1) =~= seq![(l % 256) as u8]);
                assert(p[1] == (l % 256) as u8);
                assert(str_at(p, 2, sv.len()) is More);
            }
        } else if l < 0x10000 {
            lemma_be_bytes_len(l, 2);
            if k >= 3 {
                assert(p.subrange(1, 3) =~= be_bytes(l, 2));
                lemma_from_be_bytes(l, 2);
                assert(str_at(p, 3, sv.len()) is More);
            }
        } else {
            lemma_be_bytes_len(l, 4);
            if k >= 5 {
                assert(p.subrange(1, 5) =~= be_bytes(l, 4));
                lemma_from_be_bytes(l, 4);
                assert(str_at(p, 5, sv.len()) is More);
            }
        }
    }
}

proof fn lemma_prefix_bin(bv: Seq<u8>, k: int)
    requires
        bv.len() <= u32::MAX,
        0 <= k < enc_binhead(bv.len() as int).len() + bv.len(),
    ensures
        parse_val((enc_binhead(bv.len() as int) + bv).take(k)) is More,
{
    lemma_pow256_vals();
    let l = bv.len() as int;
    let e = enc_binhead(l) + bv;
    let p = e.take(k);
    if k == 0 {
        assert(p =~= Seq::<u8>::empty());
    } else {
        assert(p[0] == e[0]);
        if l < 0x100 {
            lemma_be_bytes_len(l, 1);
            if k >= 2 {
                assert(be_bytes(l, 1) =~= seq![(l % 256) as u8]);
                assert(p[1] == (l % 256) as u8);
                assert(bin_at(p, 2, bv.len()) is More);
            }
        } else if l < 0x10000 {
            lemma_be_bytes_len(l, 2);
            if k >= 3 {
                assert(p.subrange(1, 3) =~= be_bytes(l, 2));
                lemma_from_be_bytes(l, 2);
                assert(bin_at(p, 3, bv.len()) is More);
            }
        } else {
            lemma_be_bytes_len(l, 4);
            if k >= 5 {
                assert(p.subrange(1, 5) =~= be_bytes(l, 4));
                lemma_from_be_bytes(l, 4);
                assert(bin_at(p, 5, bv.len()) is More);
            }
        }
    }
}

proof fn lemma_prefix_ext(t: i8, dv: Seq<u8>, k: int)
    requires
        dv.len() <= u32::MAX,
        0 <= k < enc_exthead(dv.len() as int, t).len() + dv.len(),
    ensures
        parse_val((enc_exthead(dv.len() as int, t) + dv).take(k)) is More,
{
    lemma_pow256_vals();
    let l = dv.len() as int;
    let e = enc_exthead(l, t) + dv;
    let p = e.take(k);
    if k == 0 {
        assert(p =~= Seq::<u8>::empty());
    } else {
        assert(p[0] == e[0]);
        if l == 1 || l == 2 || l == 4 || l == 8 || l == 16 {
            if k >= 2 {
                assert(p[1] == tag_byte(t));
                assert(ext_at(p, 2, dv.len(), tag_byte(t)) is More);
            }
        } else if l < 0x100 {
            lemma_be_bytes_len(l, 1);
            if k >= 3 {
                assert(be_bytes(l, 1) =~= seq![(l % 256) as u8]);
                assert(p[1] == (l % 256) as u8);
                assert(p[2] == tag_byte(t));
                assert(ext_at(p, 3, dv.len(), tag_byte(t)) is More);
            }
        } else if l < 0x10000 {
            lemma_be_bytes_len(l, 2);
            if k >= 4 {
                assert(p.subrange(1, 3) =~= be_bytes(l, 2));
                lemma_from_be_bytes(l, 2);
                assert(p[3] == tag_byte(t));
                assert(ext_at(p, 4, dv.len(), tag_byte(t)) is More);
            }
        } else {
            lemma_be_bytes_len(l, 4);
            if k >= 6 {
                assert(p.subrange(1, 5) =~= be_bytes(l, 4));
                lemma_from_be_bytes(l, 4);
                assert(p[5] == tag_byte(t));
                assert(ext_at(p, 6, dv.len(), tag_byte(t)) is More);
            }
        }
    }
}

/// Partial-read resilience: every strict prefix of a well-formed value's
/// encoding parses to "read more" — never to a value, never to an error.
pub proof fn lemma_parse_enc_prefix(v: WireVal, k: int)
    requires
        wf_val(v),
        0 <= k < enc(v).len(),
    ensures
        parse_val(enc(v).take(k)) is More,
    decreases v, 0nat,
{
    lemma_pow256_vals();
    let e = enc(v);
    let p = e.take(k);
    match v {
        WireVal::Nil => {
            assert(p =~= Seq::<u8>::empty());
        },
        WireVal::Bool(b) => {
            assert(p =~= Seq::<u8>::empty());
        },
        WireVal::Int(i) => {
            lemma_prefix_int(i, k);
        },
        WireVal::F32(bits) => {
            lemma_be_bytes_len(bits as int, 4);
            if k == 0 {
                assert(p =~= Seq::<u8>::empty());
            } else {
                assert(p[0] == 0xcau8);
            }
        },
        WireVal::F64(bits) => {
            lemma_be_bytes_len(bits as int, 8);
            if k == 0 {
                assert(p =~= Seq::<u8>::empty());
            } else {
                assert(p[0] == 0xcbu8);
            }
        },
        WireVal::Str(sv) => {
            lemma_prefix_str(sv, k);
            assert(e =~= enc_strhead(sv.len() as int) + sv);
        },
        WireVal::Bin(bv) => {
            lemma_prefix_bin(bv, k);
            assert(e =~= enc_binhead(bv.len() as int) + bv);
        },
        WireVal::Ext(t, dv) => {
            lemma_prefix_ext(t, dv, k);
            assert(e =~= enc_exthead(dv.len() as int, t) + dv);
        },
        WireVal::Array(a) => {
            let n = a.len();
            let body = enc_list(a);
            let h: int = if n < 0x10 {
                1
            } else if n < 0x10000 {
                3
            } else {
                5
            };
            if k == 0 {
                assert(p =~= Seq::<u8>::empty());
            } else if k < h {
                assert(p[0] == e[0]);
                if n < 0x10000 {
                    lemma_be_bytes_len(n as int, 2);
                } else {
                    lemma_be_bytes_len(n as int, 4);
                }
            } else {
                assert(p[0] == e[0]);
                if n < 0x10 {
                } else if n < 0x10000 {
                    lemma_be_bytes_len(n as int, 2);
                    assert(p.subrange(1, 3) =~= be_bytes(n as int, 2));
                    lemma_from_be_bytes(n as int, 2);
                } else {
                    lemma_be_bytes_len(n as int, 4);
                    assert(p.subrange(1, 5) =~= be_bytes(n as int, 4));
                    lemma_from_be_bytes(n as int, 4);
                }
                assert(p.skip(h) =~= body.take(k - h));
                lemma_prefix_list(a, k - h);
            }
        },
        WireVal::Dict(m) => {
            let n = m.len();
            let body = enc_pairs(m);
            let h: int = if n < 0x10 {
                1
            } else if n < 0x10000 {
                3
            } else {
                5
            };
            if k == 0 {
                assert(p =~= Seq::<u8>::empty());
            } else if k < h {
                assert(p[0] == e[0]);
                if n < 0x10000 {
                    lemma_be_bytes_len(n as int, 2);
                } else {
                    lemma_be_bytes_len(n as int, 4);
                }
            } else {
                assert(p[0] == e[0]);
                if n < 0x10 {
                } else if n < 0x10000 {
                    lemma_be_bytes_len(n as int, 2);
                    assert(p.subrange(1, 3) =~= be_bytes(n as int, 2));
                    lemma_from_be_bytes(n as int, 2);
                } else {
                    lemma_be_bytes_len(n as int, 4);
                    assert(p.subrange(1, 5) =~= be_bytes(n as int, 4));
                    lemma_from_be_bytes(n as int, 4);
                }
                assert(p.skip(h) =~= body.take(k - h));
                lemma_prefix_pairs(m, k - h);
            }
        },
    }
}

/// Partial-read resilience for a run of values.
pub proof fn lemma_prefix_list(a: Seq<WireVal>, k: int)
    requires
        forall|i: int| 0 <= i < a.len() ==> wf_val(#[trigger] a[i]),
        0 <= k < enc_list(a).len(),
    ensures
        parse_list(enc_list(a).take(k), a.len()) is More,
    decreases a, 1nat,
{
    let e0 = enc(a[0]);
    let tail = enc_list(a.drop_first());
    let p = enc_list(a).take(k);
    lemma_enc_len_pos(a[0]);
    assert forall|i: int| 0 <= i < a.drop_first().len() implies wf_val(
        #[trigger] a.drop_first()[i],
    ) by {
        assert(a.drop_first()[i] == a[i + 1]);
    }
    if k < e0.len() {
        assert(p =~= e0.take(k));
        lemma_parse_enc_prefix(a[0], k);
    } else {
        assert(p =~= e0 + tail.take(k - e0.len()));
        lemma_parse_enc(a[0], tail.take(k - e0.len()));
        assert(parse_val(p) == ParseOut::Found(a[0], e0.len()));
        assert(p.skip(e0.len() as int) =~= tail.take(k - e0.len()));
        assert(a.drop_first().len() > 0) by {
            if a.drop_first().len() == 0 {
                assert(tail.len() == 0);
            }
        }
        lemma_prefix_list(a.drop_first(), k - e0.len());
    }
}

/// Partial-read resilience for a run of key-value pairs.
pub proof fn lemma_prefix_pairs(m: Seq<(WireVal, WireVal)>, k: int)
    requires
        forall|i: int| 0 <= i < m.len() ==> wf_val((#[trigger] m[i]).0) && wf_val(m[i].1),
        0 <= k < enc_pairs(m).len(),
    ensures
        parse_pairs(enc_pairs(m).take(k), m.len()) is More,
    decreases m, 1nat,
{
    let ek = enc(m[0].0);
    let ev = enc(m[0].1);
    let tail = enc_pairs(m.drop_first());
    let p = enc_pairs(m).take(k);
    lemma_enc_len_pos(m[0].0);
    lemma_enc_len_pos(m[0].1);
    assert forall|i: int| 0 <= i < m.drop_first().len() implies wf_val(
        (#[trigger] m.drop_first()[i]).0,
    ) && wf_val(m.drop_first()[i].1) by {
        assert(m.drop_first()[i] == m[i + 1]);
    }
    if k < ek.len() {
        assert(p =~= ek.take(k));
        lemma_parse_enc_prefix(m[0].0, k);
    } else if k < ek.len() + ev.len() {
        assert(p =~= ek + ev.take(k - ek.len()));
        lemma_parse_enc(m[0].0, ev.take(k - ek.len()));
        assert(parse_val(p) == ParseOut::Found(m[0].0, ek.len()));
        assert(p.skip(ek.len() as int) =~= ev.take(k - ek.len()));
        lemma_parse_enc_prefix(m[0].1, k - ek.len());
    } else {
        assert(p =~= ek + (ev + tail.take(k - ek.len() - ev.len())));
        lemma_parse_enc(m[0].0, ev + tail.take(k - ek.len() - ev.len()));
        assert(parse_val(p) == ParseOut::Found(m[0].0, ek.len()));
        assert(p.skip(ek.len() as int) =~= ev + tail.take(k - ek.len() - ev.len()));
        lemma_parse_enc(m[0].1, tail.take(k - ek.len() - ev.len()));
        assert(p.skip((ek.len() + ev.len()) as int) =~= tail.take(k - ek.len() - ev.len()));
        assert(m.drop_first().len() > 0) by {
            if m.drop_first().len() == 0 {
                assert(tail.len() == 0);
            }
        }
        lemma_prefix_pairs(m.drop_first(), k - ek.len() - ev.len());
    }
}

} // verus!
