use vstd::prelude::*;

verus! {

/// A number of the textual tree: an integer, or a finite float held as the
/// decimal literal that the text form shows.
#[derive(Debug, Clone, PartialEq)]
pub enum JsonNumber {
    Int(i64),
    Float(String),
}

/// A textual-tree value. Objects keep their members in insertion order.
#[derive(Debug, PartialEq)]
pub enum Json {
    Null,
    Bool(bool),
    Number(JsonNumber),
    String(String),
    Array(Vec<Json>),
    Object(Vec<(String, Json)>),
}

/// The mathematical value of a [`Json`].
pub enum JsonModel {
    Null,
    Bool(bool),
    Int(int),
    Float(Seq<char>),
    Str(Seq<char>),
    Array(Seq<JsonModel>),
    Object(Seq<(Seq<char>, JsonModel)>),
}

impl View for Json {
    type V = JsonModel;

    open spec fn view(&self) -> JsonModel
        decreases self,
    {
        match self {
            Json::Null => JsonModel::Null,
            Json::Bool(b) => JsonModel::Bool(*b),
            Json::Number(JsonNumber::Int(n)) => JsonModel::Int(*n as int),
            Json::Number(JsonNumber::Float(d)) => JsonModel::Float(d@),
            Json::String(s) => JsonModel::Str(s@),
            Json::Array(v) => JsonModel::Array(json_items(v@)),
            Json::Object(v) => JsonModel::Object(json_members(v@)),
        }
    }
}

/// The views of a sequence of values, element by element.
pub open spec fn json_items(s: Seq<Json>) -> Seq<JsonModel>
    decreases s,
{
    if s.len() == 0 {
        Seq::empty()
    } else {
        json_items(s.subrange(0, s.len() - 1)).push(s[s.len() - 1].view())
    }
}

/// The views of a sequence of object members, member by member.
pub open spec fn json_members(s: Seq<(String, Json)>) -> Seq<(Seq<char>, JsonModel)>
    decreases s,
{
    if s.len() == 0 {
        Seq::empty()
    } else {
        let e = s[s.len() - 1];
        json_members(s.subrange(0, s.len() - 1)).push((e.0@, e.1.view()))
    }
}

/// The item views have the sequence's length, and each is the view of its element.
pub proof fn lemma_json_items(s: Seq<Json>)
    ensures
        json_items(s).len() == s.len(),
        forall|i: int| 0 <= i < s.len() ==> #[trigger] json_items(s)[i] == s[i]@,
    decreases s.len(),
{
    if s.len() > 0 {
        let pre = s.subrange(0, s.len() - 1);
        lemma_json_items(pre);
        assert(json_items(s) == json_items(pre).push(s[s.len() - 1]@));
        assert forall|i: int| 0 <= i < s.len() implies #[trigger] json_items(s)[i] == s[i]@ by {
            if i < s.len() - 1 {
                assert(pre[i] == s[i]);
            }
        }
    } else {
        assert(json_items(s) == Seq::<JsonModel>::empty());
    }
}

/// The member views have the sequence's length, and each is the view of its member.
pub proof fn lemma_json_members(s: Seq<(String, Json)>)
    ensures
        json_members(s).len() == s.len(),
        forall|i: int|
            0 <= i < s.len() ==> #[trigger] json_members(s)[i] == (s[i].0@, s[i].1@),
    decreases s.len(),
{
    if s.len() > 0 {
        let pre = s.subrange(0, s.len() - 1);
        lemma_json_members(pre);
        let e = s[s.len() - 1];
        assert(json_members(s) == json_members(pre).push((e.0@, e.1@)));
        assert forall|i: int| 0 <= i < s.len() implies #[trigger] json_members(s)[i] == (
        s[i].0@,
        s[i].1@,
        ) by {
            if i < s.len() - 1 {
                assert(pre[i] == s[i]);
            }
        }
    } else {
        assert(json_members(s) == Seq::<(Seq<char>, JsonModel)>::empty());
    }
}

/// Every object, at any depth, has unique keys.
pub open spec fn json_wf(j: JsonModel) -> bool
    decreases j,
{
    match j {
        JsonModel::Array(s) => json_items_wf(s),
        JsonModel::Object(s) => crate::bson_value::keys_unique(s) && json_members_wf(s),
        _ => true,
    }
}

/// Every element is well formed.
pub open spec fn json_items_wf(s: Seq<JsonModel>) -> bool
    decreases s,
{
    s.len() > 0 ==> json_items_wf(s.subrange(0, s.len() - 1)) && json_wf(s[s.len() - 1])
}

/// Every member's value is well formed.
pub open spec fn json_members_wf(s: Seq<(Seq<char>, JsonModel)>) -> bool
    decreases s,
{
    s.len() > 0 ==> json_members_wf(s.subrange(0, s.len() - 1)) && json_wf(s[s.len() - 1].1)
}

/// What serde_json writes for a string: the characters between double quotes,
/// with quote, backslash and control characters escaped.
pub uninterp spec fn json_quoted(s: Seq<char>) -> Seq<char>;

/// Relies on serde_json's `Display` for `Value`: a string value is written
/// as its quoted, escaped form, the same form that object keys take.
#[verifier::external_body]
fn quoted(s: &str) -> (r: String)
    ensures
        r@ == json_quoted(s@),
{
    serde_json::Value::String(s.to_string()).to_string()
}

/// The character of a decimal digit.
pub open spec fn digit_char(d: int) -> char {
    "0123456789"@[d]
}

/// The decimal digits of a natural number, without leading zeros.
pub open spec fn digits(n: nat) -> Seq<char>
    decreases n,
{
    if n < 10 {
        seq![digit_char(n as int)]
    } else {
        digits(n / 10).push(digit_char((n % 10) as int))
    }
}

/// The decimal form of an integer, with a leading `-` when negative.
pub open spec fn decimal(n: int) -> Seq<char> {
    if n < 0 {
        seq!['-'] + digits((-n) as nat)
    } else {
        digits(n as nat)
    }
}

/// The compact text form of a value: no whitespace, members and elements in order.
pub open spec fn text(j: JsonModel) -> Seq<char>
    decreases j,
{
    match j {
        JsonModel::Null => "null"@,
        JsonModel::Bool(b) => if b {
            "true"@
        } else {
            "false"@
        },
        JsonModel::Int(n) => decimal(n),
        JsonModel::Float(d) => d,
        JsonModel::Str(s) => json_quoted(s),
        JsonModel::Array(s) => "["@ + items_text(s) + "]"@,
        JsonModel::Object(s) => "{"@ + members_text(s) + "}"@,
    }
}

/// The elements' texts joined by commas.
pub open spec fn items_text(s: Seq<JsonModel>) -> Seq<char>
    decreases s,
{
    if s.len() == 0 {
        Seq::empty()
    } else {
        let pre = s.subrange(0, s.len() - 1);
        let last = text(s[s.len() - 1]);
        if s.len() == 1 {
            last
        } else {
            items_text(pre) + ","@ + last
        }
    }
}

/// The members' texts, each `"key":value`, joined by commas.
pub open spec fn members_text(s: Seq<(Seq<char>, JsonModel)>) -> Seq<char>
    decreases s,
{
    if s.len() == 0 {
        Seq::empty()
    } else {
        let pre = s.subrange(0, s.len() - 1);
        let e = s[s.len() - 1];
        let last = json_quoted(e.0) + ":"@ + text(e.1);
        if s.len() == 1 {
            last
        } else {
            members_text(pre) + ","@ + last
        }
    }
}

fn digit_str(d: u64) -> (r: &'static str)
    requires
        d < 10,
    ensures
        r@ == seq![digit_char(d as int)],
{
    proof {
        reveal_strlit("0123456789");
    }
    if d == 0 {
        proof { reveal_strlit("0"); }
        "0"
    } else if d == 1 {
        proof { reveal_strlit("1"); }
        "1"
    } else if d == 2 {
        proof { reveal_strlit("2"); }
        "2"
    } else if d == 3 {
        proof { reveal_strlit("3"); }
        "3"
    } else if d == 4 {
        proof { reveal_strlit("4"); }
        "4"
    } else if d == 5 {
        proof { reveal_strlit("5"); }
        "5"
    } else if d == 6 {
        proof { reveal_strlit("6"); }
        "6"
    } else if d == 7 {
        proof { reveal_strlit("7"); }
        "7"
    } else if d == 8 {
        proof { reveal_strlit("8"); }
        "8"
    } else {
        proof { reveal_strlit("9"); }
        "9"
    }
}

fn write_digits(m: u64, out: &mut String)
    ensures
        final(out)@ == old(out)@ + digits(m as nat),
    decreases m,
{
    if m >= 10 {
        write_digits(m / 10, out);
    }
    out.append(digit_str(m % 10));
    assert(final(out)@ =~= old(out)@ + digits(m as nat));
}

fn write_int(n: i64, out: &mut String)
    ensures
        final(out)@ == old(out)@ + decimal(n as int),
{
    if n < 0 {
        out.append("-");
        proof { reveal_strlit("-"); }
        let m: u64 = (0 - (n as i128)) as u64;
        write_digits(m, out);
        assert(final(out)@ =~= old(out)@ + decimal(n as int));
    } else {
        write_digits(n as u64, out);
    }
}

proof fn lemma_items_text_push(s: Seq<JsonModel>, x: JsonModel)
    ensures
        items_text(s.push(x)) == if s.len() == 0 {
            text(x)
        } else {
            items_text(s) + ","@ + text(x)
        },
{
    let t = s.push(x);
    assert(t.subrange(0, t.len() - 1) =~= s);
}

proof fn lemma_members_text_push(s: Seq<(Seq<char>, JsonModel)>, x: (Seq<char>, JsonModel))
    ensures
        members_text(s.push(x)) == if s.len() == 0 {
            json_quoted(x.0) + ":"@ + text(x.1)
        } else {
            members_text(s) + ","@ + json_quoted(x.0) + ":"@ + text(x.1)
        },
{
    let t = s.push(x);
    assert(t.subrange(0, t.len() - 1) =~= s);
}

fn write_json(j: &Json, out: &mut String)
    ensures
        final(out)@ == old(out)@ + text(j@),
    decreases j,
{
    match j {
        Json::Null => {
            out.append("null");
        },
        Json::Bool(b) => {
            if *b {
                out.append("true");
            } else {
                out.append("false");
            }
        },
        Json::Number(JsonNumber::Int(n)) => {
            write_int(*n, out);
        },
        Json::Number(JsonNumber::Float(d)) => {
            out.append(d.as_str());
        },
        Json::String(s) => {
            let q = quoted(s.as_str());
            out.append(q.as_str());
        },
        Json::Array(v) => {
            out.append("[");
            assert(decreases_to!(*j => *v));
            let ghost start = out@;
            let mut i: usize = 0;
            while i < v.len()
                invariant
                    i <= v.len(),
                    out@ == start + items_text(json_items(v@.subrange(0, i as int))),
                    decreases_to!(*j => *v),
                decreases v.len() - i,
            {
                let ghost before = out@;
                proof {
                    let pre = v@.subrange(0, i as int);
                    let cur = v@.subrange(0, i + 1);
                    assert(cur.subrange(0, i as int) =~= pre);
                    assert(json_items(cur) == json_items(pre).push(v@[i as int]@));
                    lemma_json_items(pre);
                    lemma_items_text_push(json_items(pre), v@[i as int]@);
                }
                if i > 0 {
                    out.append(",");
                }
                proof {
                    assert(decreases_to!(*v => v[i as int]));
                }
                write_json(&v[i], out);
                i += 1;
                assert(out@ =~= start + items_text(json_items(v@.subrange(0, i as int))));
            }
            assert(v@.subrange(0, v.len() as int) =~= v@);
            out.append("]");
            assert(out@ =~= old(out)@ + text(j@));
        },
        Json::Object(v) => {
            out.append("{");
            assert(decreases_to!(*j => *v));
            let ghost start = out@;
            let mut i: usize = 0;
            while i < v.len()
                invariant
                    i <= v.len(),
                    out@ == start + members_text(json_members(v@.subrange(0, i as int))),
                    decreases_to!(*j => *v),
                decreases v.len() - i,
            {
                proof {
                    let pre = v@.subrange(0, i as int);
                    let cur = v@.subrange(0, i + 1);
                    assert(cur.subrange(0, i as int) =~= pre);
                    let e = v@[i as int];
                    assert(json_members(cur) == json_members(pre).push((e.0@, e.1@)));
                    lemma_json_members(pre);
                    lemma_members_text_push(json_members(pre), (e.0@, e.1@));
                }
                if i > 0 {
                    out.append(",");
                }
                let q = quoted(v[i].0.as_str());
                out.append(q.as_str());
                out.append(":");
                proof {
                    assert(decreases_to!(*v => v[i as int]));
                    assert(decreases_to!(v[i as int] => v[i as int].1));
                }
                write_json(&v[i].1, out);
                i += 1;
                assert(out@ =~= start + members_text(json_members(v@.subrange(0, i as int))));
            }
            assert(v@.subrange(0, v.len() as int) =~= v@);
            out.append("}");
            assert(out@ =~= old(out)@ + text(j@));
        },
    }
}

impl Json {
    /// The compact text form of this value.
    pub fn to_compact_string(&self) -> (r: String)
        ensures
            r@ == text(self@),
    {
        let mut out = String::new();
        write_json(self, &mut out);
        assert(out@ =~= text(self@));
        out
    }
}

} // verus!
