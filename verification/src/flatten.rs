//! Flattening of one sample's name and label values into a single key.
//!
//! The key of a sample is its base name, followed — when at least one
//! label value is non-empty — by a period and the non-empty label
//! values, in their given order, joined with periods. No escaping or
//! normalization is applied.
use vstd::prelude::*;
use vstd::string::StringExecFns;
use crate::model::{label_values, Metric};

verus! {

/// The label values that survive flattening: those that are non-empty,
/// in their given order.
pub open spec fn kept_values(values: Seq<Seq<char>>) -> Seq<Seq<char>>
    decreases values.len(),
{
    if values.len() == 0 {
        Seq::empty()
    } else {
        let rest = kept_values(values.drop_last());
        if values.last().len() == 0 {
            rest
        } else {
            rest.push(values.last())
        }
    }
}

/// The given sequences joined with a period between each adjacent pair.
pub open spec fn join_dot(vals: Seq<Seq<char>>) -> Seq<char>
    decreases vals.len(),
{
    if vals.len() == 0 {
        Seq::empty()
    } else if vals.len() == 1 {
        vals[0]
    } else {
        join_dot(vals.drop_last()) + seq!['.'] + vals.last()
    }
}

/// The flattened key for a base name and a sequence of label values:
/// the base alone when no non-empty value survives, otherwise the base,
/// a period, and the surviving values joined with periods.
pub open spec fn spec_flatten_key(base: Seq<char>, values: Seq<Seq<char>>) -> Seq<char> {
    if kept_values(values).len() == 0 {
        base
    } else {
        base + seq!['.'] + join_dot(kept_values(values))
    }
}

/// Appending one more value keeps all previously surviving values and
/// adds the new one exactly when it is non-empty.
pub proof fn lemma_kept_push(values: Seq<Seq<char>>, v: Seq<char>)
    ensures
        kept_values(values.push(v)) == if v.len() == 0 {
            kept_values(values)
        } else {
            (kept_values(values).push(v))
        },
{
    assert(values.push(v).drop_last() =~= values);
    assert(values.push(v).last() == v);
}

/// How the flattened key grows under one more label value: an empty
/// value leaves the key unchanged, a non-empty one appends a period and
/// the value.
pub proof fn lemma_flatten_key_push(base: Seq<char>, values: Seq<Seq<char>>, v: Seq<char>)
    ensures
        v.len() == 0 ==> spec_flatten_key(base, values.push(v)) == spec_flatten_key(base, values),
        v.len() > 0 ==> spec_flatten_key(base, values.push(v)) == spec_flatten_key(
            base,
            values,
        ) + seq!['.'] + v,
{
    lemma_kept_push(values, v);
    if v.len() > 0 {
        let kept = kept_values(values);
        if kept.len() == 0 {
            assert(join_dot(kept.push(v)) == v);
        } else {
            assert(kept.push(v).drop_last() =~= kept);
            assert(join_dot(kept.push(v)) == join_dot(kept) + seq!['.'] + v);
            assert(base + seq!['.'] + (join_dot(kept) + seq!['.'] + v) =~= (base + seq!['.']
                + join_dot(kept)) + seq!['.'] + v);
        }
    }
}

/// Law: a sample without labels keeps its base name as its key.
pub proof fn lemma_flatten_key_no_labels(base: Seq<char>, values: Seq<Seq<char>>)
    requires
        values.len() == 0,
    ensures
        spec_flatten_key(base, values) == base,
{
}

/// Law: label values that are empty strings are skipped entirely — the
/// key is the same as if only the non-empty values had been given.
pub proof fn lemma_flatten_key_skips_empty_values(base: Seq<char>, values: Seq<Seq<char>>)
    ensures
        spec_flatten_key(base, values) == spec_flatten_key(base, kept_values(values)),
{
    lemma_kept_idempotent(values);
}

/// Filtering to the surviving values a second time changes nothing.
pub proof fn lemma_kept_idempotent(values: Seq<Seq<char>>)
    ensures
        kept_values(kept_values(values)) == kept_values(values),
    decreases values.len(),
{
    if values.len() > 0 {
        lemma_kept_idempotent(values.drop_last());
        if values.last().len() > 0 {
            lemma_kept_push(kept_values(values.drop_last()), values.last());
        }
    }
}

/// Law: when every label value is empty, the key equals the base name.
pub proof fn lemma_flatten_key_all_values_empty(base: Seq<char>, values: Seq<Seq<char>>)
    requires
        forall|i: int| 0 <= i < values.len() ==> values[i].len() == 0,
    ensures
        spec_flatten_key(base, values) == base,
    decreases values.len(),
{
    if values.len() > 0 {
        lemma_flatten_key_all_values_empty(base, values.drop_last());
    }
}

/// Builds the flattened key of one sample: the base name, then the
/// sample's non-empty label values in order, all joined with periods.
pub fn flatten_metric_with_labels(name: &str, metric: &Metric) -> (r: String)
    ensures
        r@ == spec_flatten_key(name@, label_values(metric.labels@)),
{
    let mut res = String::from_str(name);
    let mut i: usize = 0;
    while i < metric.labels.len()
        invariant
            0 <= i <= metric.labels@.len(),
            res@ == spec_flatten_key(name@, label_values(metric.labels@.take(i as int))),
        decreases metric.labels@.len() - i,
    {
        let v: &String = &metric.labels[i].value;
        proof {
            reveal_strlit(".");
            assert("."@ =~= seq!['.']);
            assert(label_values(metric.labels@.take(i + 1 as int)) =~= label_values(
                metric.labels@.take(i as int),
            ).push(metric.labels@[i as int].value@));
            lemma_flatten_key_push(
                name@,
                label_values(metric.labels@.take(i as int)),
                metric.labels@[i as int].value@,
            );
        }
        if !v.as_str().is_empty() {
            res.append(".");
            res.append(v.as_str());
        }
        i = i + 1;
    }
    proof {
        assert(metric.labels@.take(metric.labels@.len() as int) =~= metric.labels@);
    }
    res
}

} // verus!
