//! The snapshot data that the encoder consumes and the entries it produces.
//!
//! A metric's numeric payloads are carried as IEEE-754 bit patterns
//! (`u64`): the flattening logic never reads a number, it only decides
//! under which key each one is exported, so the bits travel through the
//! encoder opaquely and are turned back into numbers by the caller when
//! the output is serialized.
use vstd::prelude::*;

verus! {

/// The kind of a metric family. Families of an unsupported kind
/// (summaries, untyped metrics) are carried as `Other` and contribute
/// nothing to the output.
#[derive(Clone, Copy, PartialEq, Eq, Structural, Debug)]
pub enum MetricType {
    Counter,
    Gauge,
    Histogram,
    Other,
}

/// One name/value annotation on a sample. The flattening logic reads
/// only the value; the name is carried for fidelity to the wire format.
#[derive(Debug)]
pub struct LabelPair {
    pub name: String,
    pub value: String,
}

/// One sample of a family. It carries a slot for each payload the wire
/// format knows; the family's kind decides which slot is read (a slot
/// that the kind does not use holds its default, as on the wire).
#[derive(Debug)]
pub struct Metric {
    /// The sample's label pairs, in their given order.
    pub labels: Vec<LabelPair>,
    /// Scalar payload (counter or gauge), as a bit pattern.
    pub value_bits: u64,
    /// Histogram payload: number of observations.
    pub sample_count: u64,
    /// Histogram payload: sum of observations, as a bit pattern.
    pub sample_sum_bits: u64,
}

/// A group of samples sharing one name and one kind.
#[derive(Debug)]
pub struct MetricFamily {
    pub name: String,
    pub kind: MetricType,
    pub metrics: Vec<Metric>,
}

/// A numeric output value. Both variants stand for a floating-point
/// number in the serialized output: `Scalar` carries its bit pattern,
/// `Count` carries a whole number of observations still to be converted.
#[derive(Clone, Copy, PartialEq, Eq, Structural, Debug)]
pub enum Value {
    Scalar(u64),
    Count(u64),
}

/// One entry of the flat output map.
#[derive(Debug)]
pub struct Entry {
    pub key: String,
    pub value: Value,
}

/// The label values of a sample, in order, as sequences of characters.
pub open spec fn label_values(labels: Seq<LabelPair>) -> Seq<Seq<char>> {
    Seq::new(labels.len(), |i: int| labels[i].value@)
}

} // verus!
