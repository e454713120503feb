use vstd::prelude::*;

verus! {

/// A binary 64-bit float.
///
/// `bits` is its IEEE-754 bit pattern. `decimal` is the shortest decimal
/// literal that reads back as the same value, in the form the textual format
/// writes a number (`3.4`, `1.0`, `1e300`); it is only read when the value is
/// finite. Both are filled in where floating point is at hand.
#[derive(Debug, Clone, PartialEq)]
pub struct Double {
    pub bits: u64,
    pub decimal: String,
}

/// A binary-document value.
///
/// A document is a sequence of key/value pairs in insertion order. The
/// variants after `Int64` exist only in the binary format.
#[derive(Debug, PartialEq)]
pub enum BsonValue {
    Double(Double),
    String(String),
    Array(Vec<BsonValue>),
    Document(Vec<(String, BsonValue)>),
    Boolean(bool),
    Null,
    Int32(i32),
    Int64(i64),
    /// Milliseconds since the Unix epoch.
    DateTime(i64),
    Binary(Vec<u8>),
    ObjectId(Vec<u8>),
    /// Pattern and options.
    RegularExpression(String, String),
    /// Time and increment.
    Timestamp(u32, u32),
    JavaScriptCode(String),
    /// The code; the scope document is not carried.
    JavaScriptCodeWithScope(String),
    Symbol(String),
    Decimal128(Vec<u8>),
    DbPointer,
    Undefined,
    MaxKey,
    MinKey,
}

/// What the conversion reads of a [`BsonValue`]: binary-only values are not told apart.
pub enum BsonModel {
    Double { bits: u64, decimal: Seq<char> },
    String(Seq<char>),
    Array(Seq<BsonModel>),
    Document(Seq<(Seq<char>, BsonModel)>),
    Boolean(bool),
    Null,
    Int32(i32),
    Int64(i64),
    BinaryOnly,
}

impl View for BsonValue {
    type V = BsonModel;

    open spec fn view(&self) -> BsonModel
        decreases self,
    {
        match self {
            BsonValue::Double(d) => BsonModel::Double { bits: d.bits, decimal: d.decimal@ },
            BsonValue::String(s) => BsonModel::String(s@),
            BsonValue::Array(v) => BsonModel::Array(view_items(v@)),
            BsonValue::Document(v) => BsonModel::Document(view_entries(v@)),
            BsonValue::Boolean(b) => BsonModel::Boolean(*b),
            BsonValue::Null => BsonModel::Null,
            BsonValue::Int32(n) => BsonModel::Int32(*n),
            BsonValue::Int64(n) => BsonModel::Int64(*n),
            _ => BsonModel::BinaryOnly,
        }
    }
}

/// The views of a sequence of values, element by element.
pub open spec fn view_items(s: Seq<BsonValue>) -> Seq<BsonModel>
    decreases s,
{
    if s.len() == 0 {
        Seq::empty()
    } else {
        view_items(s.subrange(0, s.len() - 1)).push(s[s.len() - 1].view())
    }
}

/// The views of a sequence of document entries, entry by entry.
pub open spec fn view_entries(s: Seq<(String, BsonValue)>) -> Seq<(Seq<char>, BsonModel)>
    decreases s,
{
    if s.len() == 0 {
        Seq::empty()
    } else {
        let e = s[s.len() - 1];
        view_entries(s.subrange(0, s.len() - 1)).push((e.0@, e.1.view()))
    }
}

/// No two entries of a document share a key.
pub open spec fn keys_unique<V>(s: Seq<(Seq<char>, V)>) -> bool {
    forall|i: int, j: int| 0 <= i < j < s.len() ==> #[trigger] s[i].0 != #[trigger] s[j].0
}

/// Every document, at any depth, has unique keys.
pub open spec fn bson_wf(b: BsonModel) -> bool
    decreases b,
{
    match b {
        BsonModel::Array(s) => items_wf(s),
        BsonModel::Document(s) => keys_unique(s) && entries_wf(s),
        _ => true,
    }
}

/// Every element is well formed.
pub open spec fn items_wf(s: Seq<BsonModel>) -> bool
    decreases s,
{
    s.len() > 0 ==> items_wf(s.subrange(0, s.len() - 1)) && bson_wf(s[s.len() - 1])
}

/// Every entry's value is well formed.
pub open spec fn entries_wf(s: Seq<(Seq<char>, BsonModel)>) -> bool
    decreases s,
{
    s.len() > 0 ==> entries_wf(s.subrange(0, s.len() - 1)) && bson_wf(s[s.len() - 1].1)
}

/// The item views have the sequence's length, and each is the view of its element.
pub proof fn lemma_view_items(s: Seq<BsonValue>)
    ensures
        view_items(s).len() == s.len(),
        forall|i: int| 0 <= i < s.len() ==> #[trigger] view_items(s)[i] == s[i]@,
    decreases s.len(),
{
    if s.len() > 0 {
        let pre = s.subrange(0, s.len() - 1);
        lemma_view_items(pre);
        assert(view_items(s) == view_items(pre).push(s[s.len() - 1]@));
        assert forall|i: int| 0 <= i < s.len() implies #[trigger] view_items(s)[i] == s[i]@ by {
            if i < s.len() - 1 {
                assert(pre[i] == s[i]);
            }
        }
    } else {
        assert(view_items(s) == Seq::<BsonModel>::empty());
    }
}

/// The entry views have the sequence's length, and each is the view of its entry.
pub proof fn lemma_view_entries(s: Seq<(String, BsonValue)>)
    ensures
        view_entries(s).len() == s.len(),
        forall|i: int|
            0 <= i < s.len() ==> #[trigger] view_entries(s)[i] == (s[i].0@, s[i].1@),
    decreases s.len(),
{
    if s.len() > 0 {
        let pre = s.subrange(0, s.len() - 1);
        lemma_view_entries(pre);
        let e = s[s.len() - 1];
        assert(view_entries(s) == view_entries(pre).push((e.0@, e.1@)));
        assert forall|i: int| 0 <= i < s.len() implies #[trigger] view_entries(s)[i] == (
        s[i].0@,
        s[i].1@,
        ) by {
            if i < s.len() - 1 {
                assert(pre[i] == s[i]);
            }
        }
    } else {
        assert(view_entries(s) == Seq::<(Seq<char>, BsonModel)>::empty());
    }
}

} // verus!
