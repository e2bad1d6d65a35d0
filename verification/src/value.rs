//! The structural value type carried as method arguments and results.
//!
//! A `WireValue` is one unit of the self-describing binary wire format:
//! nil, booleans, integers, floating-point bit patterns, strings, binary
//! blobs, arrays, maps and extension values. Floating-point payloads are
//! held as their IEEE-754 bit patterns, so they travel through the codec
//! bit-for-bit.
use vstd::prelude::*;

verus! {

broadcast use vstd::seq::axiom_seq_index_decreases, vstd::std_specs::vec::group_vec_axioms;

/// One structural wire value, as held by executable code.
///
/// Integers are canonicalized: any non-negative integer is `Uint`, and
/// `Nint` carries strictly negative values only (see [`WireValue::valid`]).
#[derive(Debug, PartialEq)]
pub enum WireValue {
    Nil,
    Bool(bool),
    /// A non-negative integer.
    Uint(u64),
    /// A strictly negative integer.
    Nint(i64),
    /// Bit pattern of a 32-bit IEEE-754 number.
    F32(u32),
    /// Bit pattern of a 64-bit IEEE-754 number.
    F64(u64),
    /// A string, kept as its raw bytes.
    Str(Vec<u8>),
    Bin(Vec<u8>),
    Array(Vec<WireValue>),
    /// Key-value pairs in their wire order.
    Dict(Vec<(WireValue, WireValue)>),
    /// An extension value: a type tag and a payload.
    Ext(i8, Vec<u8>),
}

/// The mathematical model of a wire value. Integers of either executable
/// flavour collapse into one mathematical integer, so two values are equal
/// in the model exactly when they are the same msgpack value.
pub enum WireVal {
    Nil,
    Bool(bool),
    Int(int),
    F32(u32),
    F64(u64),
    Str(Seq<u8>),
    Bin(Seq<u8>),
    Array(Seq<WireVal>),
    Dict(Seq<(WireVal, WireVal)>),
    Ext(i8, Seq<u8>),
}

impl WireValue {
    /// The model of this value.
    pub open spec fn model(self) -> WireVal
        decreases self,
    {
        match self {
            WireValue::Nil => WireVal::Nil,
            WireValue::Bool(b) => WireVal::Bool(b),
            WireValue::Uint(n) => WireVal::Int(n as int),
            WireValue::Nint(n) => WireVal::Int(n as int),
            WireValue::F32(b) => WireVal::F32(b),
            WireValue::F64(b) => WireVal::F64(b),
            WireValue::Str(s) => WireVal::Str(s@),
            WireValue::Bin(b) => WireVal::Bin(b@),
            WireValue::Array(a) => WireVal::Array(
                Seq::new(a@.len(), |i: int| if 0 <= i < a@.len() {
                    a@[i].model()
                } else {
                    WireVal::Nil
                }),
            ),
            WireValue::Dict(m) => WireVal::Dict(
                Seq::new(m@.len(), |i: int| if 0 <= i < m@.len() {
                    (m@[i].0.model(), m@[i].1.model())
                } else {
                    (WireVal::Nil, WireVal::Nil)
                }),
            ),
            WireValue::Ext(t, d) => WireVal::Ext(t, d@),
        }
    }

    /// Executable values are valid when negative-integer payloads are
    /// really negative (so the model is canonical) and every length fits
    /// the 32-bit size fields of the wire format.
    pub open spec fn valid(self) -> bool
        decreases self,
    {
        match self {
            WireValue::Nint(n) => n < 0,
            WireValue::Str(s) => s@.len() <= u32::MAX,
            WireValue::Bin(b) => b@.len() <= u32::MAX,
            WireValue::Array(a) => a@.len() <= u32::MAX && forall|i: int|
                0 <= i < a@.len() ==> a@[i].valid(),
            WireValue::Dict(m) => m@.len() <= u32::MAX && forall|i: int|
                0 <= i < m@.len() ==> (#[trigger] m@[i]).0.valid() && m@[i].1.valid(),
            WireValue::Ext(t, d) => d@.len() <= u32::MAX,
            _ => true,
        }
    }
}

impl View for WireValue {
    type V = WireVal;

    open spec fn view(&self) -> WireVal {
        self.model()
    }
}

/// Well-formedness of a model value: integers fit the wire format's 64-bit
/// signed or unsigned range, and every length fits its 32-bit size field.
pub open spec fn wf_val(v: WireVal) -> bool
    decreases v,
{
    match v {
        WireVal::Int(i) => -0x8000000000000000 <= i < 0x10000000000000000,
        WireVal::Str(s) => s.len() <= u32::MAX,
        WireVal::Bin(b) => b.len() <= u32::MAX,
        WireVal::Array(a) => a.len() <= u32::MAX && forall|i: int|
            0 <= i < a.len() ==> wf_val(#[trigger] a[i]),
        WireVal::Dict(m) => m.len() <= u32::MAX && forall|i: int|
            0 <= i < m.len() ==> wf_val((#[trigger] m[i]).0) && wf_val(m[i].1),
        WireVal::Ext(t, d) => d.len() <= u32::MAX,
        _ => true,
    }
}

/// The model of any valid executable value is well-formed.
pub proof fn lemma_valid_wf(w: WireValue)
    requires
        w.valid(),
    ensures
        wf_val(w.model()),
    decreases w,
{
    broadcast use vstd::seq::axiom_seq_index_decreases, vstd::std_specs::vec::group_vec_axioms;

    match w {
        WireValue::Array(a) => {
            assert forall|i: int| 0 <= i < a@.len() implies wf_val(
                #[trigger] w.model()->Array_0[i],
            ) by {
                assert(a@[i].valid());
                lemma_valid_wf(a@[i]);
            }
        },
        WireValue::Dict(m) => {
            assert forall|i: int| 0 <= i < m@.len() implies wf_val(
                (#[trigger] w.model()->Dict_0[i]).0,
            ) && wf_val(w.model()->Dict_0[i].1) by {
                assert(m@[i].0.valid() && m@[i].1.valid());
                lemma_valid_wf(m@[i].0);
                lemma_valid_wf(m@[i].1);
            }
        },
        _ => {},
    }
}

/// The models of a sequence of executable values, element by element.
pub open spec fn models(s: Seq<WireValue>) -> Seq<WireVal> {
    Seq::new(s.len(), |i: int| if 0 <= i < s.len() {
        s[i].model()
    } else {
        WireVal::Nil
    })
}

/// The models of a sequence of executable key-value pairs.
pub open spec fn pair_models(s: Seq<(WireValue, WireValue)>) -> Seq<(WireVal, WireVal)> {
    Seq::new(s.len(), |i: int| if 0 <= i < s.len() {
        (s[i].0.model(), s[i].1.model())
    } else {
        (WireVal::Nil, WireVal::Nil)
    })
}

pub proof fn lemma_array_model(a: Vec<WireValue>)
    ensures
        WireValue::Array(a).model() == WireVal::Array(models(a@)),
{
    assert(WireValue::Array(a).model()->Array_0 =~= models(a@));
}

pub proof fn lemma_dict_model(m: Vec<(WireValue, WireValue)>)
    ensures
        WireValue::Dict(m).model() == WireVal::Dict(pair_models(m@)),
{
    assert(WireValue::Dict(m).model()->Dict_0 =~= pair_models(m@));
}

pub proof fn lemma_models_push(s: Seq<WireValue>, v: WireValue)
    ensures
        models(s.push(v)) == models(s).push(v.model()),
{
    assert(models(s.push(v)) =~= models(s).push(v.model()));
}

pub proof fn lemma_pair_models_push(s: Seq<(WireValue, WireValue)>, p: (WireValue, WireValue))
    ensures
        pair_models(s.push(p)) == pair_models(s).push((p.0.model(), p.1.model())),
{
    assert(pair_models(s.push(p)) =~= pair_models(s).push((p.0.model(), p.1.model())));
}


impl WireValue {
    /// Decide validity executably.
    #[verifier::loop_isolation(false)]
    pub fn check_valid(&self) -> (r: bool)
        ensures
            r == self.valid(),
        decreases self,
    {
        match self {
            WireValue::Nint(n) => *n < 0,
            WireValue::Str(s) => (s.len() as u64) <= 0xffffffff,
            WireValue::Bin(b) => (b.len() as u64) <= 0xffffffff,
            WireValue::Ext(_, d) => (d.len() as u64) <= 0xffffffff,
            WireValue::Array(a) => {
                if (a.len() as u64) > 0xffffffff {
                    return false;
                }
                let mut i: usize = 0;
                while i < a.len()
                    invariant
                        i <= a@.len(),
                        forall|j: int| 0 <= j < i ==> (#[trigger] a@[j]).valid(),
                    decreases a@.len() - i,
                {
                    proof {
                        assert(decreases_to!(self => a));
                        assert(decreases_to!(a => a[i as int]));
                    }
                    if !a[i].check_valid() {
                        return false;
                    }
                    i = i + 1;
                }
                true
            },
            WireValue::Dict(m) => {
                if (m.len() as u64) > 0xffffffff {
                    return false;
                }
                let mut i: usize = 0;
                while i < m.len()
                    invariant
                        i <= m@.len(),
                        forall|j: int| 0 <= j < i ==> (#[trigger] m@[j]).0.valid()
                            && m@[j].1.valid(),
                    decreases m@.len() - i,
                {
                    proof {
                        assert(decreases_to!(self => m));
                        assert(decreases_to!(m => m[i as int]));
                    }
                    if !m[i].0.check_valid() {
                        return false;
                    }
                    if !m[i].1.check_valid() {
                        return false;
                    }
                    i = i + 1;
                }
                true
            },
            _ => true,
        }
    }
}

} // verus!
