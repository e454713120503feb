use vstd::prelude::*;
use crate::bson_value::{BsonModel, BsonValue, bson_wf, entries_wf, items_wf};
use crate::decode::{
    EXPONENT_ALL_ONES, decode, decode_entries, decode_items, decode_text, exponent_field,
    is_infinite_bits, is_nan_bits, sign_bit,
};
use crate::error::ProcessError;
use crate::json_value::{JsonModel, json_items_wf, json_members_wf, json_wf};

verus! {

/// Whether a binary value holds a binary-only value, at any depth.
pub open spec fn contains_binary_only(b: BsonModel) -> bool
    decreases b,
{
    match b {
        BsonModel::BinaryOnly => true,
        BsonModel::Array(s) => items_contain_binary_only(s),
        BsonModel::Document(s) => entries_contain_binary_only(s),
        _ => false,
    }
}

/// Whether some element holds a binary-only value.
pub open spec fn items_contain_binary_only(s: Seq<BsonModel>) -> bool
    decreases s,
{
    if s.len() == 0 {
        false
    } else {
        items_contain_binary_only(s.subrange(0, s.len() - 1)) || contains_binary_only(
            s[s.len() - 1],
        )
    }
}

/// Whether some entry's value holds a binary-only value.
pub open spec fn entries_contain_binary_only(s: Seq<(Seq<char>, BsonModel)>) -> bool
    decreases s,
{
    if s.len() == 0 {
        false
    } else {
        entries_contain_binary_only(s.subrange(0, s.len() - 1)) || contains_binary_only(
            s[s.len() - 1].1,
        )
    }
}

/// A finite binary float decodes to itself as a number, never to a string.
pub proof fn law_finite_double_stays_number(bits: u64, decimal: Seq<char>)
    requires
        exponent_field(bits) != EXPONENT_ALL_ONES,
    ensures
        decode(BsonModel::Double { bits, decimal }) == Ok::<JsonModel, ProcessError>(
            JsonModel::Float(decimal),
        ),
{
}

/// A NaN decodes to the string `NaN` when its sign bit is clear and to `-NaN`
/// when it is set.
pub proof fn law_nan_is_named_by_sign_bit(bits: u64, decimal: Seq<char>)
    requires
        is_nan_bits(bits),
    ensures
        !sign_bit(bits) ==> decode(BsonModel::Double { bits, decimal }) == Ok::<
            JsonModel,
            ProcessError,
        >(JsonModel::Str("NaN"@)),
        sign_bit(bits) ==> decode(BsonModel::Double { bits, decimal }) == Ok::<
            JsonModel,
            ProcessError,
        >(JsonModel::Str("-NaN"@)),
{
}

/// Positive infinity decodes to the string `Infinity`, negative infinity to
/// `-Infinity`; these two bit patterns are the only infinities.
pub proof fn law_infinities_are_named(bits: u64, decimal: Seq<char>)
    ensures
        is_infinite_bits(bits) <==> (bits == 0x7ff0_0000_0000_0000u64 || bits
            == 0xfff0_0000_0000_0000u64),
        decode(BsonModel::Double { bits: 0x7ff0_0000_0000_0000u64, decimal }) == Ok::<
            JsonModel,
            ProcessError,
        >(JsonModel::Str("Infinity"@)),
        decode(BsonModel::Double { bits: 0xfff0_0000_0000_0000u64, decimal }) == Ok::<
            JsonModel,
            ProcessError,
        >(JsonModel::Str("-Infinity"@)),
{
}

proof fn lemma_items_in_order(s: Seq<BsonModel>)
    requires
        decode_items(s) is Ok,
    ensures
        decode_items(s)->Ok_0.len() == s.len(),
        forall|i: int|
            0 <= i < s.len() ==> decode(#[trigger] s[i]) == Ok::<JsonModel, ProcessError>(
                decode_items(s)->Ok_0[i],
            ),
    decreases s.len(),
{
    if s.len() > 0 {
        let pre = s.subrange(0, s.len() - 1);
        lemma_items_in_order(pre);
        assert forall|i: int| 0 <= i < s.len() implies decode(#[trigger] s[i]) == Ok::<
            JsonModel,
            ProcessError,
        >(decode_items(s)->Ok_0[i]) by {
            if i < s.len() - 1 {
                assert(pre[i] == s[i]);
            }
        }
    }
}

proof fn lemma_entries_in_order(s: Seq<(Seq<char>, BsonModel)>)
    requires
        decode_entries(s) is Ok,
    ensures
        decode_entries(s)->Ok_0.len() == s.len(),
        forall|i: int|
            0 <= i < s.len() ==> {
                &&& decode_entries(s)->Ok_0[i].0 == (#[trigger] s[i]).0
                &&& decode(s[i].1) == Ok::<JsonModel, ProcessError>(decode_entries(s)->Ok_0[i].1)
            },
    decreases s.len(),
{
    if s.len() > 0 {
        let pre = s.subrange(0, s.len() - 1);
        lemma_entries_in_order(pre);
        assert forall|i: int| 0 <= i < s.len() implies {
            &&& decode_entries(s)->Ok_0[i].0 == (#[trigger] s[i]).0
            &&& decode(s[i].1) == Ok::<JsonModel, ProcessError>(decode_entries(s)->Ok_0[i].1)
        } by {
            if i < s.len() - 1 {
                assert(pre[i] == s[i]);
            }
        }
    }
}

/// A decoded array has the same length as the binary one, and its element at
/// each position is the decoded element at that position.
pub proof fn law_array_order_kept(s: Seq<BsonModel>)
    requires
        decode(BsonModel::Array(s)) is Ok,
    ensures
        decode(BsonModel::Array(s)) matches Ok(JsonModel::Array(t)) && t.len() == s.len() && (
        forall|i: int|
            0 <= i < s.len() ==> decode(#[trigger] s[i]) == Ok::<JsonModel, ProcessError>(t[i])),
{
    lemma_items_in_order(s);
}

/// A decoded document has the same keys in the same order, and the value of
/// each entry is the decoded value of the binary entry at that position.
pub proof fn law_document_order_and_keys_kept(s: Seq<(Seq<char>, BsonModel)>)
    requires
        decode(BsonModel::Document(s)) is Ok,
    ensures
        decode(BsonModel::Document(s)) matches Ok(JsonModel::Object(t)) && t.len() == s.len() && (
        forall|i: int|
            0 <= i < s.len() ==> {
                &&& t[i].0 == (#[trigger] s[i]).0
                &&& decode(s[i].1) == Ok::<JsonModel, ProcessError>(t[i].1)
            }),
{
    lemma_entries_in_order(s);
}

/// Decoding fails exactly when a binary-only value occurs at some depth, and
/// the error is then always `FromBsonConvertError`.
pub proof fn law_binary_only_fails_at_any_depth(b: BsonModel)
    ensures
        decode(b) is Err <==> contains_binary_only(b),
        decode(b) is Err ==> decode(b) == Err::<JsonModel, ProcessError>(
            ProcessError::FromBsonConvertError,
        ),
    decreases b,
{
    match b {
        BsonModel::Array(s) => lemma_items_fail(s),
        BsonModel::Document(s) => lemma_entries_fail(s),
        _ => {},
    }
}

proof fn lemma_items_fail(s: Seq<BsonModel>)
    ensures
        decode_items(s) is Err <==> items_contain_binary_only(s),
        decode_items(s) is Err ==> decode_items(s) == Err::<Seq<JsonModel>, ProcessError>(
            ProcessError::FromBsonConvertError,
        ),
    decreases s,
{
    if s.len() > 0 {
        lemma_items_fail(s.subrange(0, s.len() - 1));
        law_binary_only_fails_at_any_depth(s[s.len() - 1]);
    }
}

proof fn lemma_entries_fail(s: Seq<(Seq<char>, BsonModel)>)
    ensures
        decode_entries(s) is Err <==> entries_contain_binary_only(s),
        decode_entries(s) is Err ==> decode_entries(s) == Err::<
            Seq<(Seq<char>, JsonModel)>,
            ProcessError,
        >(ProcessError::FromBsonConvertError),
    decreases s,
{
    if s.len() > 0 {
        lemma_entries_fail(s.subrange(0, s.len() - 1));
        law_binary_only_fails_at_any_depth(s[s.len() - 1].1);
    }
}

/// Decoding a value whose documents have unique keys gives a value whose
/// objects have unique keys.
pub proof fn law_decode_keeps_keys_unique(b: BsonModel)
    requires
        bson_wf(b),
        decode(b) is Ok,
    ensures
        json_wf(decode(b)->Ok_0),
    decreases b,
{
    match b {
        BsonModel::Array(s) => lemma_items_keep_wf(s),
        BsonModel::Document(s) => {
            lemma_entries_keep_wf(s);
            lemma_entries_in_order(s);
            let t = decode_entries(s)->Ok_0;
            assert forall|i: int, j: int| 0 <= i < j < t.len() implies #[trigger] t[i].0
                != #[trigger] t[j].0 by {
                assert(t[i].0 == s[i].0);
                assert(t[j].0 == s[j].0);
            }
        },
        _ => {},
    }
}

proof fn lemma_items_keep_wf(s: Seq<BsonModel>)
    requires
        items_wf(s),
        decode_items(s) is Ok,
    ensures
        json_items_wf(decode_items(s)->Ok_0),
    decreases s,
{
    if s.len() > 0 {
        let pre = s.subrange(0, s.len() - 1);
        lemma_items_keep_wf(pre);
        law_decode_keeps_keys_unique(s[s.len() - 1]);
        let t = decode_items(s)->Ok_0;
        assert(t.subrange(0, t.len() - 1) =~= decode_items(pre)->Ok_0);
    }
}

proof fn lemma_entries_keep_wf(s: Seq<(Seq<char>, BsonModel)>)
    requires
        entries_wf(s),
        decode_entries(s) is Ok,
    ensures
        json_members_wf(decode_entries(s)->Ok_0),
    decreases s,
{
    if s.len() > 0 {
        let pre = s.subrange(0, s.len() - 1);
        lemma_entries_keep_wf(pre);
        law_decode_keeps_keys_unique(s[s.len() - 1].1);
        let t = decode_entries(s)->Ok_0;
        assert(t.subrange(0, t.len() - 1) =~= decode_entries(pre)->Ok_0);
    }
}

/// Two structurally equal binary values give the same text, or the same error.
pub proof fn law_decode_is_deterministic(a: BsonValue, b: BsonValue)
    requires
        a@ == b@,
    ensures
        decode_text(a@) == decode_text(b@),
{
}

} // verus!
