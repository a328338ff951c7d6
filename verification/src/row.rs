use crate::numeral::{int_rep, i64_to_string};
use vstd::prelude::*;

verus! {

/// Declared logical type of a schema field.
#[derive(Clone, Copy, Debug, PartialEq, Eq, Structural)]
pub enum LogicalType {
    Boolean,
    Integer,
    Text,
}

/// A named, typed column definition with a required/optional presence flag.
#[derive(Debug)]
pub struct Field {
    pub name: String,
    pub required: bool,
    pub logical: LogicalType,
}

/// Ghost model of one decoded field value.
pub enum ValModel {
    Absent,
    Boolean(bool),
    Integer(i64),
    Text(Seq<char>),
    Nested(Seq<(Seq<char>, Seq<char>)>),
}

/// One decoded field value, as handed over by the sequential decoder.
#[derive(Debug)]
pub enum RawValue {
    /// An optional field with no value present.
    Absent,
    Boolean(bool),
    Integer(i64),
    Text(String),
    /// A nested structure carried as named sub-values; it has no direct
    /// textual coercion and is rendered through the fallback.
    Nested(Vec<(String, String)>),
}

impl RawValue {
    pub open spec fn model(self) -> ValModel {
        match self {
            RawValue::Absent => ValModel::Absent,
            RawValue::Boolean(b) => ValModel::Boolean(b),
            RawValue::Integer(i) => ValModel::Integer(i),
            RawValue::Text(s) => ValModel::Text(s@),
            RawValue::Nested(ps) => ValModel::Nested(
                ps@.map_values(|p: (String, String)| (p.0@, p.1@)),
            ),
        }
    }

    /// A fresh value equal, field for field, to this one.
    pub fn duplicate(&self) -> (r: RawValue)
        ensures
            r.model() == self.model(),
    {
        match self {
            RawValue::Absent => RawValue::Absent,
            RawValue::Boolean(b) => RawValue::Boolean(*b),
            RawValue::Integer(i) => RawValue::Integer(*i),
            RawValue::Text(s) => RawValue::Text(s.clone()),
            RawValue::Nested(ps) => {
                let mut out: Vec<(String, String)> = Vec::new();
                let mut i: usize = 0;
                while i < ps.len()
                    invariant
                        i <= ps.len(),
                        out@.len() == i,
                        forall|j: int|
                            0 <= j < i ==> #[trigger] out@[j].0@ == ps@[j].0@ && out@[j].1@
                                == ps@[j].1@,
                    decreases ps.len() - i,
                {
                    out.push((ps[i].0.clone(), ps[i].1.clone()));
                    i = i + 1;
                }
                let r = RawValue::Nested(out);
                proof {
                    assert(out@.map_values(|p: (String, String)| (p.0@, p.1@)) =~= ps@.map_values(
                        |p: (String, String)| (p.0@, p.1@),
                    ));
                }
                r
            },
        }
    }
}

/// One decoded row: values in schema field order.
#[derive(Debug)]
pub struct RawRow {
    pub values: Vec<RawValue>,
}

impl RawRow {
    pub open spec fn model(self) -> Seq<ValModel> {
        self.values@.map_values(|v: RawValue| v.model())
    }

    /// A fresh row equal, value for value, to this one.
    pub fn duplicate(&self) -> (r: RawRow)
        ensures
            r.model() == self.model(),
    {
        let mut values: Vec<RawValue> = Vec::new();
        let mut i: usize = 0;
        while i < self.values.len()
            invariant
                i <= self.values.len(),
                values@.len() == i,
                forall|j: int|
                    0 <= j < i ==> #[trigger] values@[j].model() == self.values@[j].model(),
            decreases self.values.len() - i,
        {
            values.push(self.values[i].duplicate());
            i = i + 1;
        }
        let r = RawRow { values };
        proof {
            assert(r.model() =~= self.model());
        }
        r
    }
}

/// One display row: `(field name, rendered value)` pairs in schema order.
#[derive(Debug)]
pub struct MaterializedRow {
    pub entries: Vec<(String, String)>,
}

impl MaterializedRow {
    /// The row as a sequence of (name, value) character sequences.
    pub open spec fn rep(self) -> Seq<(Seq<char>, Seq<char>)> {
        self.entries@.map_values(|p: (String, String)| (p.0@, p.1@))
    }

    /// A fresh row equal, entry for entry, to this one.
    pub fn duplicate(&self) -> (r: MaterializedRow)
        ensures
            r.rep() == self.rep(),
    {
        let mut entries: Vec<(String, String)> = Vec::new();
        let mut i: usize = 0;
        while i < self.entries.len()
            invariant
                i <= self.entries.len(),
                entries@.len() == i,
                forall|j: int|
                    0 <= j < i ==> #[trigger] entries@[j].0@ == self.entries@[j].0@
                        && entries@[j].1@ == self.entries@[j].1@,
            decreases self.entries.len() - i,
        {
            entries.push((self.entries[i].0.clone(), self.entries[i].1.clone()));
            i = i + 1;
        }
        let r = MaterializedRow { entries };
        proof {
            assert(r.rep() =~= self.rep());
        }
        r
    }

    pub fn field_count(&self) -> (n: usize)
        ensures
            n == self.rep().len(),
    {
        self.entries.len()
    }
}

pub open spec fn null_rep() -> Seq<char> {
    seq!['n', 'u', 'l', 'l']
}

pub open spec fn bool_rep(b: bool) -> Seq<char> {
    if b {
        seq!['t', 'r', 'u', 'e']
    } else {
        seq!['f', 'a', 'l', 's', 'e']
    }
}

/// Rendering of one (name, value) pair inside the structural fallback.
pub open spec fn pair_rep(p: (Seq<char>, Seq<char>)) -> Seq<char> {
    p.0 + seq![':', ' '] + p.1
}

/// Comma-separated rendering of the pairs of a nested value.
pub open spec fn pairs_rep(ps: Seq<(Seq<char>, Seq<char>)>) -> Seq<char>
    decreases ps.len(),
{
    if ps.len() == 0 {
        Seq::empty()
    } else if ps.len() == 1 {
        pair_rep(ps[0])
    } else {
        pairs_rep(ps.drop_last()) + seq![',', ' '] + pair_rep(ps.last())
    }
}

/// Structural rendering used when a value has no direct textual coercion
/// under its field's declared type.  Always non-empty.
pub open spec fn fallback_rep(v: ValModel) -> Seq<char> {
    match v {
        ValModel::Absent => null_rep(),
        ValModel::Boolean(b) => bool_rep(b),
        ValModel::Integer(i) => int_rep(i as int),
        ValModel::Text(s) => seq!['"'] + s + seq!['"'],
        ValModel::Nested(ps) => seq!['{'] + pairs_rep(ps) + seq!['}'],
    }
}

/// Rendering of one value under a field's declared logical type: a direct
/// coercion when value and type agree, the structural fallback otherwise,
/// and `null` for an absent optional value.
pub open spec fn render_rep(v: ValModel, t: LogicalType) -> Seq<char> {
    match v {
        ValModel::Absent => null_rep(),
        ValModel::Boolean(b) => if t == LogicalType::Boolean {
            bool_rep(b)
        } else {
            fallback_rep(v)
        },
        ValModel::Integer(i) => if t == LogicalType::Integer {
            int_rep(i as int)
        } else {
            fallback_rep(v)
        },
        ValModel::Text(s) => if t == LogicalType::Text {
            s
        } else {
            fallback_rep(v)
        },
        ValModel::Nested(_) => fallback_rep(v),
    }
}

/// The value a row holds for schema position `k`; absent past its end.
pub open spec fn value_at(raw: Seq<ValModel>, k: int) -> ValModel {
    if 0 <= k < raw.len() {
        raw[k]
    } else {
        ValModel::Absent
    }
}

/// The materialization of a decoded row under a schema: one `(field name,
/// rendered value)` pair per schema field, in schema order.
pub open spec fn mat_rep(raw: Seq<ValModel>, fields: Seq<Field>) -> Seq<(Seq<char>, Seq<char>)> {
    Seq::new(fields.len(), |k: int| (fields[k].name@, render_rep(value_at(raw, k), fields[k].logical)))
}

fn null_string() -> (out: String)
    ensures
        out@ == null_rep(),
{
    let out = String::from_str("null");
    proof {
        reveal_strlit("null");
        assert(out@ =~= null_rep());
    }
    out
}

fn bool_string(b: bool) -> (out: String)
    ensures
        out@ == bool_rep(b),
{
    let out = if b {
        String::from_str("true")
    } else {
        String::from_str("false")
    };
    proof {
        reveal_strlit("true");
        reveal_strlit("false");
        assert(out@ =~= bool_rep(b));
    }
    out
}

/// The structural fallback rendering, as executable code.
fn fallback_string(v: &RawValue) -> (out: String)
    ensures
        out@ == fallback_rep(v.model()),
{
    match v {
        RawValue::Absent => null_string(),
        RawValue::Boolean(b) => bool_string(*b),
        RawValue::Integer(i) => i64_to_string(*i),
        RawValue::Text(s) => {
            let out = String::from_str("\"").concat(s.as_str()).concat("\"");
            proof {
                reveal_strlit("\"");
                assert(out@ =~= fallback_rep(v.model()));
            }
            out
        },
        RawValue::Nested(ps) => {
            let ghost m = ps@.map_values(|p: (String, String)| (p.0@, p.1@));
            let mut out = String::from_str("{");
            let mut i: usize = 0;
            proof {
                reveal_strlit("{");
                assert(out@ =~= seq!['{'] + pairs_rep(m.subrange(0, 0)));
            }
            while i < ps.len()
                invariant
                    i <= ps.len(),
                    m == ps@.map_values(|p: (String, String)| (p.0@, p.1@)),
                    out@ == seq!['{'] + pairs_rep(m.subrange(0, i as int)),
                decreases ps.len() - i,
            {
                if i > 0 {
                    out.append(", ");
                }
                out.append(ps[i].0.as_str());
                out.append(": ");
                out.append(ps[i].1.as_str());
                proof {
                    reveal_strlit(", ");
                    reveal_strlit(": ");
                    let pre = m.subrange(0, i as int);
                    let cur = m.subrange(0, i + 1 as int);
                    assert(cur.drop_last() =~= pre);
                    assert(cur.last() == m[i as int]);
                    if i == 0 {
                        assert(out@ =~= seq!['{'] + pairs_rep(cur));
                    } else {
                        assert(pairs_rep(cur) == pairs_rep(pre) + seq![',', ' '] + pair_rep(
                            m[i as int],
                        ));
                        assert(out@ =~= seq!['{'] + pairs_rep(cur));
                    }
                }
                i = i + 1;
            }
            out.append("}");
            proof {
                reveal_strlit("}");
                assert(m.subrange(0, ps@.len() as int) =~= m);
                assert(out@ =~= fallback_rep(v.model()));
            }
            out
        },
    }
}

/// Renders one value under a field's declared logical type.
pub fn render_value(v: &RawValue, t: LogicalType) -> (out: String)
    ensures
        out@ == render_rep(v.model(), t),
{
    match v {
        RawValue::Absent => null_string(),
        RawValue::Boolean(b) => {
            if t == LogicalType::Boolean {
                bool_string(*b)
            } else {
                fallback_string(v)
            }
        },
        RawValue::Integer(i) => {
            if t == LogicalType::Integer {
                i64_to_string(*i)
            } else {
                fallback_string(v)
            }
        },
        RawValue::Text(s) => {
            if t == LogicalType::Text {
                s.clone()
            } else {
                fallback_string(v)
            }
        },
        RawValue::Nested(_) => fallback_string(v),
    }
}

/// Converts one decoded row into its display form: one entry per schema
/// field, in schema order, never failing on an individual field.
pub fn materialize(raw: &RawRow, fields: &Vec<Field>) -> (m: MaterializedRow)
    ensures
        m.rep() == mat_rep(raw.model(), fields@),
        m.rep().len() == fields@.len(),
{
    let mut entries: Vec<(String, String)> = Vec::new();
    let mut k: usize = 0;
    while k < fields.len()
        invariant
            k <= fields@.len(),
            entries@.len() == k,
            forall|j: int|
                0 <= j < k ==> (#[trigger] entries@[j]).0@ == fields@[j].name@ && entries@[j].1@
                    == render_rep(value_at(raw.model(), j), fields@[j].logical),
        decreases fields@.len() - k,
    {
        let rendered = if k < raw.values.len() {
            proof {
                assert(raw.model()[k as int] == raw.values@[k as int].model());
            }
            render_value(&raw.values[k], fields[k].logical)
        } else {
            null_string()
        };
        entries.push((fields[k].name.clone(), rendered));
        k = k + 1;
    }
    let m = MaterializedRow { entries };
    proof {
        assert(m.rep() =~= mat_rep(raw.model(), fields@));
    }
    m
}

/// Totality of materialization: the display row always has exactly one
/// entry per schema field, whatever the decoded values hold, and every
/// rendering that goes through the structural fallback is non-empty.  One
/// exotic column therefore never aborts the materialization of its
/// siblings.
pub proof fn lemma_materialization_total(raw: Seq<ValModel>, fields: Seq<Field>)
    ensures
        mat_rep(raw, fields).len() == fields.len(),
        forall|k: int| 0 <= k < fields.len() ==> (#[trigger] mat_rep(raw, fields)[k]).0
            == fields[k].name@,
        forall|k: int|
            0 <= k < fields.len() && !(value_at(raw, k) matches ValModel::Text(_)) ==> (
            #[trigger] mat_rep(raw, fields)[k]).1.len() >= 1,
{
    assert forall|k: int|
        0 <= k < fields.len() && !(value_at(raw, k) matches ValModel::Text(_)) implies (
    #[trigger] mat_rep(raw, fields)[k]).1.len() >= 1 by {
        lemma_render_nonempty(value_at(raw, k), fields[k].logical);
    }
}

/// Every rendering is non-empty except the direct coercion of an empty
/// text value under a text-typed field.
pub proof fn lemma_render_nonempty(v: ValModel, t: LogicalType)
    ensures
        render_rep(v, t).len() >= 1 || (v matches ValModel::Text(s) && t == LogicalType::Text
            && s.len() == 0),
{
    match v {
        ValModel::Integer(i) => {
            crate::numeral::lemma_dec_rep_canonical(if i < 0 {
                (-i) as nat
            } else {
                i as nat
            });
        },
        _ => {},
    }
}

} // verus!
