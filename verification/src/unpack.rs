//! Taking plain data back out of a wire value.
//!
//! Conversion is fallible and lossless: on the wrong kind of value the
//! original value comes back unchanged in the error, so a caller can
//! still log or reuse it.
use vstd::prelude::*;

use crate::value::WireValue;

verus! {

/// Fallible conversion from a wire value to the type it carries.
pub trait TryUnpack<V>: Sized {
    /// The conversion rule: which values carry a `V`, and what comes
    /// back when one does not.
    spec fn unpack_spec(self) -> Result<V, WireValue>;

    /// Extract the payload, or give the value back unchanged.
    fn try_unpack(self) -> (r: Result<V, WireValue>)
        ensures
            r == self.unpack_spec(),
    ;
}

impl TryUnpack<WireValue> for WireValue {
    open spec fn unpack_spec(self) -> Result<WireValue, WireValue> {
        Ok(self)
    }

    fn try_unpack(self) -> (r: Result<WireValue, WireValue>) {
        Ok(self)
    }
}

impl TryUnpack<()> for WireValue {
    open spec fn unpack_spec(self) -> Result<(), WireValue> {
        match self {
            WireValue::Nil => Ok(()),
            other => Err(other),
        }
    }

    fn try_unpack(self) -> (r: Result<(), WireValue>) {
        match self {
            WireValue::Nil => Ok(()),
            other => Err(other),
        }
    }
}

impl TryUnpack<Vec<u8>> for WireValue {
    open spec fn unpack_spec(self) -> Result<Vec<u8>, WireValue> {
        match self {
            WireValue::Str(s) => Ok(s),
            other => Err(other),
        }
    }

    fn try_unpack(self) -> (r: Result<Vec<u8>, WireValue>) {
        match self {
            WireValue::Str(s) => Ok(s),
            other => Err(other),
        }
    }
}

impl TryUnpack<bool> for WireValue {
    open spec fn unpack_spec(self) -> Result<bool, WireValue> {
        match self {
            WireValue::Bool(b) => Ok(b),
            other => Err(other),
        }
    }

    fn try_unpack(self) -> (r: Result<bool, WireValue>) {
        match self {
            WireValue::Bool(b) => Ok(b),
            other => Err(other),
        }
    }
}

impl TryUnpack<i64> for WireValue {
    open spec fn unpack_spec(self) -> Result<i64, WireValue> {
        match self {
            WireValue::Uint(n) => if n <= 0x7fffffffffffffff {
                Ok(n as i64)
            } else {
                Err(WireValue::Uint(n))
            },
            WireValue::Nint(n) => Ok(n),
            other => Err(other),
        }
    }

    fn try_unpack(self) -> (r: Result<i64, WireValue>) {
        match self {
            WireValue::Uint(n) => {
                if n <= 0x7fffffffffffffff {
                    Ok(n as i64)
                } else {
                    Err(WireValue::Uint(n))
                }
            },
            WireValue::Nint(n) => Ok(n),
            other => Err(other),
        }
    }
}

impl TryUnpack<u64> for WireValue {
    open spec fn unpack_spec(self) -> Result<u64, WireValue> {
        match self {
            WireValue::Uint(n) => Ok(n),
            other => Err(other),
        }
    }

    fn try_unpack(self) -> (r: Result<u64, WireValue>) {
        match self {
            WireValue::Uint(n) => Ok(n),
            other => Err(other),
        }
    }
}

impl TryUnpack<Vec<WireValue>> for WireValue {
    open spec fn unpack_spec(self) -> Result<Vec<WireValue>, WireValue> {
        match self {
            WireValue::Array(a) => Ok(a),
            other => Err(other),
        }
    }

    fn try_unpack(self) -> (r: Result<Vec<WireValue>, WireValue>) {
        match self {
            WireValue::Array(a) => Ok(a),
            other => Err(other),
        }
    }
}

impl TryUnpack<Vec<(WireValue, WireValue)>> for WireValue {
    open spec fn unpack_spec(self) -> Result<Vec<(WireValue, WireValue)>, WireValue> {
        match self {
            WireValue::Dict(m) => Ok(m),
            other => Err(other),
        }
    }

    fn try_unpack(self) -> (r: Result<Vec<(WireValue, WireValue)>, WireValue>) {
        match self {
            WireValue::Dict(m) => Ok(m),
            other => Err(other),
        }
    }
}

} // verus!
