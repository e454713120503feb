use vstd::prelude::*;
use crate::bson_value;
use crate::bson_value::{BsonValue, BsonModel, Double, lemma_view_entries, lemma_view_items};
use crate::error::ProcessError;
use crate::json_value::{Json, JsonModel, JsonNumber, json_items, json_members, text};

verus! {

/// 2^52: the weight of the lowest exponent bit of a binary float.
pub const EXPONENT_UNIT: u64 = 0x10_0000_0000_0000;

/// 2^63: the weight of the sign bit of a binary float.
pub const SIGN_UNIT: u64 = 0x8000_0000_0000_0000;

/// The eleven exponent bits of a float's bit pattern, all set.
pub const EXPONENT_ALL_ONES: u64 = 0x7ff;

/// Whether the sign bit of a float's bit pattern is set.
pub open spec fn sign_bit(bits: u64) -> bool {
    bits >= SIGN_UNIT
}

/// The biased exponent field of a float's bit pattern.
pub open spec fn exponent_field(bits: u64) -> int {
    (bits as int / EXPONENT_UNIT as int) % 0x800
}

/// The fraction field of a float's bit pattern.
pub open spec fn fraction_field(bits: u64) -> int {
    bits as int % EXPONENT_UNIT as int
}

/// The bit pattern is a NaN: exponent all ones, fraction not zero.
pub open spec fn is_nan_bits(bits: u64) -> bool {
    exponent_field(bits) == EXPONENT_ALL_ONES && fraction_field(bits) != 0
}

/// The bit pattern is an infinity: exponent all ones, fraction zero.
pub open spec fn is_infinite_bits(bits: u64) -> bool {
    exponent_field(bits) == EXPONENT_ALL_ONES && fraction_field(bits) == 0
}

/// What a binary float becomes: a NaN or an infinity becomes a string naming
/// it, with a `-` when the sign bit is set; a finite value stays a number.
pub open spec fn decode_double(bits: u64, decimal: Seq<char>) -> JsonModel {
    if is_nan_bits(bits) {
        JsonModel::Str(
            if sign_bit(bits) {
                "-NaN"@
            } else {
                "NaN"@
            },
        )
    } else if is_infinite_bits(bits) {
        JsonModel::Str(
            if sign_bit(bits) {
                "-Infinity"@
            } else {
                "Infinity"@
            },
        )
    } else {
        JsonModel::Float(decimal)
    }
}

/// The textual value of a binary value, or the error that the first
/// binary-only value met in a depth-first walk gives.
pub open spec fn decode(b: BsonModel) -> Result<JsonModel, ProcessError>
    decreases b,
{
    match b {
        BsonModel::Double { bits, decimal } => Ok(decode_double(bits, decimal)),
        BsonModel::String(s) => Ok(JsonModel::Str(s)),
        BsonModel::Array(s) => match decode_items(s) {
            Ok(t) => Ok(JsonModel::Array(t)),
            Err(e) => Err(e),
        },
        BsonModel::Document(s) => match decode_entries(s) {
            Ok(t) => Ok(JsonModel::Object(t)),
            Err(e) => Err(e),
        },
        BsonModel::Boolean(v) => Ok(JsonModel::Bool(v)),
        BsonModel::Null => Ok(JsonModel::Null),
        BsonModel::Int32(n) => Ok(JsonModel::Int(n as int)),
        BsonModel::Int64(n) => Ok(JsonModel::Int(n as int)),
        BsonModel::BinaryOnly => Err(ProcessError::FromBsonConvertError),
    }
}

/// The elements of an array, decoded one by one, in order.
pub open spec fn decode_items(s: Seq<BsonModel>) -> Result<Seq<JsonModel>, ProcessError>
    decreases s,
{
    if s.len() == 0 {
        Ok(Seq::empty())
    } else {
        match decode_items(s.subrange(0, s.len() - 1)) {
            Err(e) => Err(e),
            Ok(t) => match decode(s[s.len() - 1]) {
                Err(e) => Err(e),
                Ok(j) => Ok(t.push(j)),
            },
        }
    }
}

/// The entries of a document with their values decoded, keys and order kept.
pub open spec fn decode_entries(s: Seq<(Seq<char>, BsonModel)>) -> Result<
    Seq<(Seq<char>, JsonModel)>,
    ProcessError,
>
    decreases s,
{
    if s.len() == 0 {
        Ok(Seq::empty())
    } else {
        let e = s[s.len() - 1];
        match decode_entries(s.subrange(0, s.len() - 1)) {
            Err(err) => Err(err),
            Ok(t) => match decode(e.1) {
                Err(err) => Err(err),
                Ok(j) => Ok(t.push((e.0, j))),
            },
        }
    }
}

/// The view of a conversion result.
pub open spec fn result_view(r: Result<Json, ProcessError>) -> Result<JsonModel, ProcessError> {
    match r {
        Ok(j) => Ok(j@),
        Err(e) => Err(e),
    }
}

/// The text of a decoding result, or its error.
pub open spec fn decode_text(b: BsonModel) -> Result<Seq<char>, ProcessError> {
    match decode(b) {
        Ok(j) => Ok(text(j)),
        Err(e) => Err(e),
    }
}

/// A failure in a prefix of the elements is a failure of the whole.
proof fn lemma_items_prefix_err(s: Seq<BsonModel>, k: int)
    requires
        0 <= k <= s.len(),
        decode_items(s.subrange(0, k)) is Err,
    ensures
        decode_items(s) == decode_items(s.subrange(0, k)),
    decreases s.len() - k,
{
    if k < s.len() {
        let cur = s.subrange(0, k + 1);
        assert(cur.subrange(0, k) =~= s.subrange(0, k));
        lemma_items_prefix_err(s, k + 1);
    } else {
        assert(s.subrange(0, k) =~= s);
    }
}

/// A failure in a prefix of the entries is a failure of the whole.
proof fn lemma_entries_prefix_err(s: Seq<(Seq<char>, BsonModel)>, k: int)
    requires
        0 <= k <= s.len(),
        decode_entries(s.subrange(0, k)) is Err,
    ensures
        decode_entries(s) == decode_entries(s.subrange(0, k)),
    decreases s.len() - k,
{
    if k < s.len() {
        let cur = s.subrange(0, k + 1);
        assert(cur.subrange(0, k) =~= s.subrange(0, k));
        lemma_entries_prefix_err(s, k + 1);
    } else {
        assert(s.subrange(0, k) =~= s);
    }
}

fn decode_double_exec(d: &Double) -> (r: Json)
    ensures
        r@ == decode_double(d.bits, d.decimal@),
{
    let bits = d.bits;
    let negative = bits >= SIGN_UNIT;
    let exponent = (bits / EXPONENT_UNIT) % 0x800;
    let fraction = bits % EXPONENT_UNIT;
    if exponent == EXPONENT_ALL_ONES && fraction != 0 {
        if negative {
            Json::String("-NaN".to_string())
        } else {
            Json::String("NaN".to_string())
        }
    } else if exponent == EXPONENT_ALL_ONES {
        if negative {
            Json::String("-Infinity".to_string())
        } else {
            Json::String("Infinity".to_string())
        }
    } else {
        Json::Number(JsonNumber::Float(d.decimal.clone()))
    }
}

/// Converts a binary value to a textual value, following [`decode`].
pub fn bson_into_simple_json(bson: &BsonValue) -> (r: Result<Json, ProcessError>)
    ensures
        result_view(r) == decode(bson@),
    decreases bson,
{
    match bson {
        BsonValue::Double(d) => Ok(decode_double_exec(d)),
        BsonValue::String(s) => Ok(Json::String(s.clone())),
        BsonValue::Array(v) => {
            let ghost m = bson_value::view_items(v@);
            proof {
                lemma_view_items(v@);
            }
            let mut out: Vec<Json> = Vec::new();
            let mut i: usize = 0;
            assert(m.subrange(0, 0) =~= Seq::<BsonModel>::empty());
            assert(json_items(out@) =~= Seq::<JsonModel>::empty());
            while i < v.len()
                invariant
                    i <= v.len(),
                    m == bson_value::view_items(v@),
                    m.len() == v@.len(),
                    forall|k: int| 0 <= k < v@.len() ==> #[trigger] m[k] == v@[k]@,
                    bson@ == BsonModel::Array(m),
                    decreases_to!(*bson => *v),
                    decode_items(m.subrange(0, i as int)) == Ok::<Seq<JsonModel>, ProcessError>(
                        json_items(out@),
                    ),
                decreases v.len() - i,
            {
                let ghost cur = m.subrange(0, i + 1);
                proof {
                    assert(cur.subrange(0, i as int) =~= m.subrange(0, i as int));
                    assert(cur[i as int] == v@[i as int]@);
                    assert(decreases_to!(*v => v[i as int]));
                }
                match bson_into_simple_json(&v[i]) {
                    Ok(j) => {
                        let ghost prev = out@;
                        out.push(j);
                        proof {
                            assert(out@.subrange(0, out@.len() - 1) =~= prev);
                            assert(json_items(out@) == json_items(prev).push(j@));
                        }
                    },
                    Err(e) => {
                        proof {
                            lemma_items_prefix_err(m, i + 1);
                        }
                        return Err(e);
                    },
                }
                i += 1;
            }
            assert(m.subrange(0, v.len() as int) =~= m);
            Ok(Json::Array(out))
        },
        BsonValue::Document(v) => {
            let ghost m = bson_value::view_entries(v@);
            proof {
                lemma_view_entries(v@);
            }
            let mut out: Vec<(String, Json)> = Vec::new();
            let mut i: usize = 0;
            assert(m.subrange(0, 0) =~= Seq::<(Seq<char>, BsonModel)>::empty());
            assert(json_members(out@) =~= Seq::<(Seq<char>, JsonModel)>::empty());
            while i < v.len()
                invariant
                    i <= v.len(),
                    m == bson_value::view_entries(v@),
                    m.len() == v@.len(),
                    forall|k: int| 0 <= k < v@.len() ==> #[trigger] m[k] == (v@[k].0@, v@[k].1@),
                    bson@ == BsonModel::Document(m),
                    decreases_to!(*bson => *v),
                    decode_entries(m.subrange(0, i as int)) == Ok::<
                        Seq<(Seq<char>, JsonModel)>,
                        ProcessError,
                    >(json_members(out@)),
                decreases v.len() - i,
            {
                let ghost cur = m.subrange(0, i + 1);
                proof {
                    assert(cur.subrange(0, i as int) =~= m.subrange(0, i as int));
                    assert(cur[i as int] == (v@[i as int].0@, v@[i as int].1@));
                    assert(decreases_to!(*v => v[i as int]));
                    assert(decreases_to!(v[i as int] => v[i as int].1));
                }
                match bson_into_simple_json(&v[i].1) {
                    Ok(j) => {
                        let key = v[i].0.clone();
                        let ghost prev = out@;
                        out.push((key, j));
                        proof {
                            assert(out@.subrange(0, out@.len() - 1) =~= prev);
                            assert(json_members(out@) == json_members(prev).push((key@, j@)));
                        }
                    },
                    Err(e) => {
                        proof {
                            lemma_entries_prefix_err(m, i + 1);
                        }
                        return Err(e);
                    },
                }
                i += 1;
            }
            assert(m.subrange(0, v.len() as int) =~= m);
            Ok(Json::Object(out))
        },
        BsonValue::Boolean(v) => Ok(Json::Bool(*v)),
        BsonValue::Null => Ok(Json::Null),
        BsonValue::Int32(n) => Ok(Json::Number(JsonNumber::Int(*n as i64))),
        BsonValue::Int64(n) => Ok(Json::Number(JsonNumber::Int(*n))),
        _ => Err(ProcessError::FromBsonConvertError),
    }
}

/// Converts a binary value to the compact text of its textual counterpart.
pub fn bson_to_simple_json(bson: &BsonValue) -> (r: Result<String, ProcessError>)
    ensures
        match r {
            Ok(s) => decode_text(bson@) == Ok::<Seq<char>, ProcessError>(s@),
            Err(e) => decode_text(bson@) == Err::<Seq<char>, ProcessError>(e),
        },
{
    match bson_into_simple_json(bson) {
        Ok(j) => Ok(j.to_compact_string()),
        Err(e) => Err(e),
    }
}

} // verus!
