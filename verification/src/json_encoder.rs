//! The flattening encoder: type dispatch over metric kinds, the
//! last-write-wins output map, and the rendering of that map as one
//! JSON object.
use vstd::prelude::*;
use vstd::string::StringExecFns;
use crate::model::{label_values, Entry, Metric, MetricFamily, MetricType, Value};
use crate::flatten::{flatten_metric_with_labels, spec_flatten_key};

verus! {

/// The flat output map that a sequence of entries stands for: each
/// entry binds its key, and a later entry for the same key overrides an
/// earlier one.
pub open spec fn map_of(entries: Seq<Entry>) -> Map<Seq<char>, Value>
    decreases entries.len(),
{
    if entries.len() == 0 {
        Map::empty()
    } else {
        map_of(entries.drop_last()).insert(entries.last().key@, entries.last().value)
    }
}

/// No two entries bind the same key.
pub open spec fn unique_keys(entries: Seq<Entry>) -> bool {
    forall|i: int, j: int|
        0 <= i < j < entries.len() ==> entries[i].key@ != entries[j].key@
}

/// Appending an entry binds its key to its value, over whatever the
/// earlier entries bound.
pub proof fn lemma_map_of_push(entries: Seq<Entry>, e: Entry)
    ensures
        map_of(entries.push(e)) == map_of(entries).insert(e.key@, e.value),
{
    assert(entries.push(e).drop_last() =~= entries);
}

/// Law: a later write to a key overrides an earlier one — rebinding a
/// key leaves the map exactly as if only the later write had happened.
pub proof fn lemma_insert_overwrites(
    m: Map<Seq<char>, Value>,
    k: Seq<char>,
    v1: Value,
    v2: Value,
)
    ensures
        m.insert(k, v1).insert(k, v2) == m.insert(k, v2),
{
    assert(m.insert(k, v1).insert(k, v2) =~= m.insert(k, v2));
}

/// Replacing the value of the one entry that binds a key rebinds that
/// key in the map and touches nothing else.
proof fn lemma_map_of_update(entries: Seq<Entry>, i: int, e: Entry)
    requires
        unique_keys(entries),
        0 <= i < entries.len(),
        e.key@ == entries[i].key@,
    ensures
        map_of(entries.update(i, e)) == map_of(entries).insert(e.key@, e.value),
    decreases entries.len(),
{
    let k = e.key@;
    if i == entries.len() - 1 {
        assert(entries.update(i, e).drop_last() =~= entries.drop_last());
        assert(map_of(entries.update(i, e)) == map_of(entries.drop_last()).insert(k, e.value));
        assert(map_of(entries.drop_last()).insert(k, entries[i].value).insert(k, e.value)
            =~= map_of(entries.drop_last()).insert(k, e.value));
    } else {
        let rest = entries.drop_last();
        let last = entries.last();
        assert(entries.update(i, e).drop_last() =~= rest.update(i, e));
        assert(entries.update(i, e).last() == last);
        lemma_map_of_update(rest, i, e);
        assert(last.key@ != k);
        assert(map_of(rest).insert(k, e.value).insert(last.key@, last.value) =~= map_of(
            rest,
        ).insert(last.key@, last.value).insert(k, e.value));
    }
}

/// Inserts one key/value binding into the entry list: the entry that
/// already binds the key is overwritten, otherwise a new entry is
/// appended.
fn upsert(entries: &mut Vec<Entry>, key: String, value: Value)
    requires
        unique_keys(old(entries)@),
    ensures
        unique_keys(final(entries)@),
        map_of(final(entries)@) == map_of(old(entries)@).insert(key@, value),
{
    let n = entries.len();
    let mut i: usize = 0;
    while i < n
        invariant
            n == entries@.len(),
            entries@ == old(entries)@,
            unique_keys(entries@),
            forall|j: int| 0 <= j < i ==> entries@[j].key@ != key@,
        decreases n - i,
    {
        if entries[i].key == key {
            let e = Entry { key, value };
            proof {
                lemma_map_of_update(entries@, i as int, e);
            }
            entries[i] = e;
            proof {
                assert(forall|p: int, q: int|
                    0 <= p < q < entries@.len() ==> entries@[p].key@ != entries@[q].key@);
            }
            return;
        }
        i = i + 1;
    }
    proof {
        lemma_map_of_push(entries@, Entry { key, value });
    }
    entries.push(Entry { key, value });
}

/// The bindings one sample contributes to the output map, applied over
/// a map already built: a counter or gauge binds its flattened key to
/// its scalar value; a histogram binds two keys, the observation count
/// under `<name>_count` and the observation sum under `<name>_sum`; an
/// unsupported kind binds nothing.
pub open spec fn sample_updates(
    m0: Map<Seq<char>, Value>,
    name: Seq<char>,
    kind: MetricType,
    s: Metric,
) -> Map<Seq<char>, Value> {
    match kind {
        MetricType::Counter => m0.insert(
            spec_flatten_key(name, label_values(s.labels@)),
            Value::Scalar(s.value_bits),
        ),
        MetricType::Gauge => m0.insert(
            spec_flatten_key(name, label_values(s.labels@)),
            Value::Scalar(s.value_bits),
        ),
        MetricType::Histogram => m0.insert(
            spec_flatten_key(name + "_count"@, label_values(s.labels@)),
            Value::Count(s.sample_count),
        ).insert(
            spec_flatten_key(name + "_sum"@, label_values(s.labels@)),
            Value::Scalar(s.sample_sum_bits),
        ),
        MetricType::Other => m0,
    }
}

/// The bindings one family contributes: those of its samples, applied
/// in the samples' given order.
pub open spec fn family_updates(
    m0: Map<Seq<char>, Value>,
    name: Seq<char>,
    kind: MetricType,
    samples: Seq<Metric>,
) -> Map<Seq<char>, Value>
    decreases samples.len(),
{
    if samples.len() == 0 {
        m0
    } else {
        sample_updates(
            family_updates(m0, name, kind, samples.drop_last()),
            name,
            kind,
            samples.last(),
        )
    }
}

/// The flat output map of a whole snapshot: the families' bindings
/// applied to the empty map, in the families' given order.
pub open spec fn export_map(families: Seq<MetricFamily>) -> Map<Seq<char>, Value>
    decreases families.len(),
{
    if families.len() == 0 {
        Map::empty()
    } else {
        family_updates(
            export_map(families.drop_last()),
            families.last().name@,
            families.last().kind,
            families.last().metrics@,
        )
    }
}

/// Law: a family of an unsupported kind contributes zero bindings,
/// however many samples it has.
pub proof fn lemma_unsupported_kind_adds_nothing(
    m0: Map<Seq<char>, Value>,
    name: Seq<char>,
    samples: Seq<Metric>,
)
    ensures
        family_updates(m0, name, MetricType::Other, samples) == m0,
    decreases samples.len(),
{
    if samples.len() > 0 {
        lemma_unsupported_kind_adds_nothing(m0, name, samples.drop_last());
    }
}

/// Law: whatever an earlier family bound a key to, a counter or gauge
/// sample processed later determines that key's final value.
pub proof fn lemma_last_write_wins(
    m0: Map<Seq<char>, Value>,
    name: Seq<char>,
    kind: MetricType,
    s: Metric,
)
    requires
        kind == MetricType::Counter || kind == MetricType::Gauge,
    ensures
        sample_updates(m0, name, kind, s)[spec_flatten_key(name, label_values(s.labels@))]
            == Value::Scalar(s.value_bits),
{
}

/// Law: families are processed in their input order — a family appended
/// to the input applies its bindings over everything built before it,
/// so where keys collide it decides the final value.
pub proof fn lemma_later_family_wins(families: Seq<MetricFamily>, g: MetricFamily)
    ensures
        export_map(families.push(g)) == family_updates(
            export_map(families),
            g.name@,
            g.kind,
            g.metrics@,
        ),
{
    assert(families.push(g).drop_last() =~= families);
}

/// Applies one sample's bindings to the entry list.
fn encode_sample(entries: &mut Vec<Entry>, name: &str, kind: MetricType, m: &Metric)
    requires
        unique_keys(old(entries)@),
    ensures
        unique_keys(final(entries)@),
        map_of(final(entries)@) == sample_updates(map_of(old(entries)@), name@, kind, *m),
{
    match kind {
        MetricType::Counter => {
            let key = flatten_metric_with_labels(name, m);
            upsert(entries, key, Value::Scalar(m.value_bits));
        },
        MetricType::Gauge => {
            let key = flatten_metric_with_labels(name, m);
            upsert(entries, key, Value::Scalar(m.value_bits));
        },
        MetricType::Histogram => {
            let base_count = String::from_str(name).concat("_count");
            let key_count = flatten_metric_with_labels(base_count.as_str(), m);
            upsert(entries, key_count, Value::Count(m.sample_count));
            let base_sum = String::from_str(name).concat("_sum");
            let key_sum = flatten_metric_with_labels(base_sum.as_str(), m);
            upsert(entries, key_sum, Value::Scalar(m.sample_sum_bits));
        },
        MetricType::Other => {},
    }
}

/// Applies one family's bindings to the entry list, sample by sample.
fn encode_family(entries: &mut Vec<Entry>, family: &MetricFamily)
    requires
        unique_keys(old(entries)@),
    ensures
        unique_keys(final(entries)@),
        map_of(final(entries)@) == family_updates(
            map_of(old(entries)@),
            family.name@,
            family.kind,
            family.metrics@,
        ),
{
    let ghost m0 = map_of(entries@);
    let mut j: usize = 0;
    while j < family.metrics.len()
        invariant
            j <= family.metrics@.len(),
            unique_keys(entries@),
            map_of(entries@) == family_updates(
                m0,
                family.name@,
                family.kind,
                family.metrics@.take(j as int),
            ),
        decreases family.metrics@.len() - j,
    {
        encode_sample(entries, family.name.as_str(), family.kind, &family.metrics[j]);
        proof {
            assert(family.metrics@.take(j + 1 as int).drop_last() =~= family.metrics@.take(
                j as int,
            ));
            assert(family.metrics@.take(j + 1 as int).last() == family.metrics@[j as int]);
        }
        j = j + 1;
    }
    proof {
        assert(family.metrics@.take(family.metrics@.len() as int) =~= family.metrics@);
    }
}

/// JSON text of one string: quoted and escaped, exactly as serde_json
/// prints it.
pub uninterp spec fn json_string_of(s: Seq<char>) -> Seq<char>;

/// Relies on serde_json::to_string on a str: it returns the quoted,
/// escaped JSON text of the string, depends on the characters alone,
/// and cannot fail when given a str.
#[verifier::external_body]
fn json_string(s: &str) -> (r: String)
    ensures
        r@ == json_string_of(s@),
{
    serde_json::to_string(s).unwrap()
}

/// The pairs of a field list as sequences of characters.
pub open spec fn fields_view(fields: Seq<(String, String)>) -> Seq<(Seq<char>, Seq<char>)> {
    Seq::new(fields.len(), |i: int| (fields[i].0@, fields[i].1@))
}

/// One rendered field of the JSON object: the escaped key, a colon, and
/// the value's already-rendered token.
pub open spec fn spec_field(key: Seq<char>, token: Seq<char>) -> Seq<char> {
    json_string_of(key) + seq![':'] + token
}

/// The rendered fields of the JSON object, comma-separated, in order.
pub open spec fn spec_fields(fields: Seq<(Seq<char>, Seq<char>)>) -> Seq<char>
    decreases fields.len(),
{
    if fields.len() == 0 {
        Seq::empty()
    } else if fields.len() == 1 {
        spec_field(fields[0].0, fields[0].1)
    } else {
        spec_fields(fields.drop_last()) + seq![','] + spec_field(
            fields.last().0,
            fields.last().1,
        )
    }
}

/// The rendered JSON object: the fields between one pair of braces.
pub open spec fn spec_render(fields: Seq<(Seq<char>, Seq<char>)>) -> Seq<char> {
    seq!['{'] + spec_fields(fields) + seq!['}']
}

/// How the rendered fields grow under one more field: the first field
/// stands alone, every later one follows a comma.
proof fn lemma_fields_push(fields: Seq<(Seq<char>, Seq<char>)>, f: (Seq<char>, Seq<char>))
    ensures
        spec_fields(fields.push(f)) == if fields.len() == 0 {
            spec_field(f.0, f.1)
        } else {
            (spec_fields(fields) + seq![','] + spec_field(f.0, f.1))
        },
{
    assert(fields.push(f).drop_last() =~= fields);
    assert(fields.push(f).last() == f);
}

/// An encoder that flattens metric families into a one-level JSON
/// object: `name{labels} -> value` becomes `"name.value1.value2": value`.
#[derive(Debug, Default)]
pub struct JsonEncoder;

impl JsonEncoder {
    /// The content type of the produced output.
    pub fn format_type(&self) -> (r: &'static str)
        ensures
            r@ == "application/json"@,
    {
        "application/json"
    }

    /// Flattens a snapshot into the entries of the output map: one
    /// entry per supported (family, sample, sub-field) triple, under
    /// the flattened key, with a later write to a key overriding an
    /// earlier one.
    pub fn flatten_families(&self, families: &Vec<MetricFamily>) -> (entries: Vec<Entry>)
        ensures
            unique_keys(entries@),
            map_of(entries@) == export_map(families@),
    {
        let mut entries: Vec<Entry> = Vec::new();
        let mut i: usize = 0;
        while i < families.len()
            invariant
                i <= families@.len(),
                unique_keys(entries@),
                map_of(entries@) == export_map(families@.take(i as int)),
            decreases families@.len() - i,
        {
            encode_family(&mut entries, &families[i]);
            proof {
                assert(families@.take(i + 1 as int).drop_last() =~= families@.take(i as int));
                assert(families@.take(i + 1 as int).last() == families@[i as int]);
            }
            i = i + 1;
        }
        proof {
            assert(families@.take(families@.len() as int) =~= families@);
        }
        entries
    }

    /// Renders a field list as one JSON object: each key is escaped and
    /// quoted, each value token is written as given, fields are
    /// comma-separated in the given order, and the whole is wrapped in
    /// braces.
    pub fn render_object(&self, fields: &Vec<(String, String)>) -> (r: String)
        ensures
            r@ == spec_render(fields_view(fields@)),
    {
        proof {
            reveal_strlit("{");
            reveal_strlit("}");
            reveal_strlit(",");
            reveal_strlit(":");
        }
        let mut body = String::from_str("{");
        proof {
            assert(body@ =~= seq!['{'] + spec_fields(fields_view(fields@).take(0)));
        }
        let mut i: usize = 0;
        while i < fields.len()
            invariant
                i <= fields@.len(),
                body@ == seq!['{'] + spec_fields(fields_view(fields@).take(i as int)),
            decreases fields@.len() - i,
        {
            proof {
                assert(fields_view(fields@).take(i + 1 as int) =~= fields_view(fields@).take(
                    i as int,
                ).push((fields@[i as int].0@, fields@[i as int].1@)));
                lemma_fields_push(
                    fields_view(fields@).take(i as int),
                    (fields@[i as int].0@, fields@[i as int].1@),
                );
                reveal_strlit(",");
                reveal_strlit(":");
            }
            if i > 0 {
                body.append(",");
            }
            let key = json_string(fields[i].0.as_str());
            body.append(key.as_str());
            body.append(":");
            body.append(fields[i].1.as_str());
            proof {
                assert(body@ =~= seq!['{'] + spec_fields(
                    fields_view(fields@).take(i + 1 as int),
                ));
            }
            i = i + 1;
        }
        body.append("}");
        proof {
            assert(fields_view(fields@).take(fields@.len() as int) =~= fields_view(fields@));
            assert(body@ =~= spec_render(fields_view(fields@)));
        }
        body
    }
}

} // verus!
