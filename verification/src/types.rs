//! The closed set of value kinds that can be published on a mapping.
//!
//! Doubles are carried as their IEEE-754 bit patterns so that validity
//! (finiteness) and equality are decided on plain bits; the boundary that
//! talks to the transport converts them to and from floating point.  Date
//! times are UTC timestamps in milliseconds.

use vstd::prelude::*;

use crate::schema::MappingType;

verus! {

/// Error when converting between value kinds.
#[derive(Debug)]
pub enum TypeError {
    /// The value could not be converted.
    Conversion {
        /// What was converted into what.
        ctx: String,
    },
}

impl TypeError {
    /// A conversion error with the given context.
    pub fn conversion(ctx: String) -> (r: TypeError)
        ensures
            r matches TypeError::Conversion { ctx: c } && c@ == ctx@,
    {
        TypeError::Conversion { ctx }
    }
}

/// Mathematical value of an [`AstarteData`].
pub enum DataView {
    Double(u64),
    Integer(i32),
    Boolean(bool),
    LongInteger(i64),
    String(Seq<char>),
    BinaryBlob(Seq<u8>),
    DateTime(i64),
    DoubleArray(Seq<u64>),
    IntegerArray(Seq<i32>),
    BooleanArray(Seq<bool>),
    LongIntegerArray(Seq<i64>),
    StringArray(Seq<Seq<char>>),
    BinaryBlobArray(Seq<Seq<u8>>),
    DateTimeArray(Seq<i64>),
}

/// A value published on or received from a mapping.
#[derive(Debug)]
pub enum AstarteData {
    /// A double, as its IEEE-754 bit pattern.
    Double(u64),
    /// A 32-bit integer.
    Integer(i32),
    /// A boolean.
    Boolean(bool),
    /// A 64-bit integer.
    LongInteger(i64),
    /// A string.
    String(String),
    /// A binary blob.
    BinaryBlob(Vec<u8>),
    /// A UTC date time in milliseconds.
    DateTime(i64),
    /// An array of doubles, as their IEEE-754 bit patterns.
    DoubleArray(Vec<u64>),
    /// An array of 32-bit integers.
    IntegerArray(Vec<i32>),
    /// An array of booleans.
    BooleanArray(Vec<bool>),
    /// An array of 64-bit integers.
    LongIntegerArray(Vec<i64>),
    /// An array of strings.
    StringArray(Vec<String>),
    /// An array of binary blobs.
    BinaryBlobArray(Vec<Vec<u8>>),
    /// An array of UTC date times in milliseconds.
    DateTimeArray(Vec<i64>),
}

impl View for AstarteData {
    type V = DataView;

    open spec fn view(&self) -> DataView {
        match self {
            AstarteData::Double(b) => DataView::Double(*b),
            AstarteData::Integer(v) => DataView::Integer(*v),
            AstarteData::Boolean(v) => DataView::Boolean(*v),
            AstarteData::LongInteger(v) => DataView::LongInteger(*v),
            AstarteData::String(s) => DataView::String(s@),
            AstarteData::BinaryBlob(v) => DataView::BinaryBlob(v@),
            AstarteData::DateTime(v) => DataView::DateTime(*v),
            AstarteData::DoubleArray(v) => DataView::DoubleArray(v@),
            AstarteData::IntegerArray(v) => DataView::IntegerArray(v@),
            AstarteData::BooleanArray(v) => DataView::BooleanArray(v@),
            AstarteData::LongIntegerArray(v) => DataView::LongIntegerArray(v@),
            AstarteData::StringArray(v) => DataView::StringArray(v.deep_view()),
            AstarteData::BinaryBlobArray(v) => DataView::BinaryBlobArray(v.deep_view()),
            AstarteData::DateTimeArray(v) => DataView::DateTimeArray(v@),
        }
    }
}

/// A double bit pattern is finite: its exponent bits are not all ones
/// (those patterns are the infinities and NaNs).
pub open spec fn spec_bits_finite(bits: u64) -> bool {
    (bits >> 52u64) & 0x7ffu64 != 0x7ffu64
}

/// True if the double with this bit pattern is finite.
pub fn bits_finite(bits: u64) -> (r: bool)
    ensures
        r == spec_bits_finite(bits),
{
    (bits >> 52u64) & 0x7ffu64 != 0x7ffu64
}

/// A valid value: every double in it is finite.
pub open spec fn data_valid(d: DataView) -> bool {
    match d {
        DataView::Double(b) => spec_bits_finite(b),
        DataView::DoubleArray(s) => forall|i: int|
            0 <= i < s.len() ==> spec_bits_finite(#[trigger] s[i]),
        _ => true,
    }
}

/// The mapping type that a value belongs to.
pub open spec fn spec_data_mapping_type(d: DataView) -> MappingType {
    match d {
        DataView::Double(_) => MappingType::Double,
        DataView::Integer(_) => MappingType::Integer,
        DataView::Boolean(_) => MappingType::Boolean,
        DataView::LongInteger(_) => MappingType::LongInteger,
        DataView::String(_) => MappingType::String,
        DataView::BinaryBlob(_) => MappingType::BinaryBlob,
        DataView::DateTime(_) => MappingType::DateTime,
        DataView::DoubleArray(_) => MappingType::DoubleArray,
        DataView::IntegerArray(_) => MappingType::IntegerArray,
        DataView::BooleanArray(_) => MappingType::BooleanArray,
        DataView::LongIntegerArray(_) => MappingType::LongIntegerArray,
        DataView::StringArray(_) => MappingType::StringArray,
        DataView::BinaryBlobArray(_) => MappingType::BinaryBlobArray,
        DataView::DateTimeArray(_) => MappingType::DateTimeArray,
    }
}

/// True if the two byte vectors hold the same bytes.
#[verifier::loop_isolation(false)]
fn eq_bytes(a: &Vec<u8>, b: &Vec<u8>) -> (r: bool)
    ensures
        r == (a@ == b@),
{
    if a.len() != b.len() {
        assert(a@.len() != b@.len());
        return false;
    }
    let mut k: usize = 0;
    while k < a.len()
        invariant
            k <= a.len(),
            forall|l: int| 0 <= l < k ==> a@[l] == b@[l],
        decreases a.len() - k,
    {
        if a[k] != b[k] {
            return false;
        }
        k += 1;
    }
    assert(a@ =~= b@);
    true
}

/// True if the two vectors hold the same 64-bit patterns.
#[verifier::loop_isolation(false)]
fn eq_u64s(a: &Vec<u64>, b: &Vec<u64>) -> (r: bool)
    ensures
        r == (a@ == b@),
{
    if a.len() != b.len() {
        assert(a@.len() != b@.len());
        return false;
    }
    let mut k: usize = 0;
    while k < a.len()
        invariant
            k <= a.len(),
            forall|l: int| 0 <= l < k ==> a@[l] == b@[l],
        decreases a.len() - k,
    {
        if a[k] != b[k] {
            return false;
        }
        k += 1;
    }
    assert(a@ =~= b@);
    true
}

/// True if the two vectors hold the same 32-bit integers.
#[verifier::loop_isolation(false)]
fn eq_i32s(a: &Vec<i32>, b: &Vec<i32>) -> (r: bool)
    ensures
        r == (a@ == b@),
{
    if a.len() != b.len() {
        assert(a@.len() != b@.len());
        return false;
    }
    let mut k: usize = 0;
    while k < a.len()
        invariant
            k <= a.len(),
            forall|l: int| 0 <= l < k ==> a@[l] == b@[l],
        decreases a.len() - k,
    {
        if a[k] != b[k] {
            return false;
        }
        k += 1;
    }
    assert(a@ =~= b@);
    true
}

/// True if the two vectors hold the same 64-bit integers.
#[verifier::loop_isolation(false)]
fn eq_i64s(a: &Vec<i64>, b: &Vec<i64>) -> (r: bool)
    ensures
        r == (a@ == b@),
{
    if a.len() != b.len() {
        assert(a@.len() != b@.len());
        return false;
    }
    let mut k: usize = 0;
    while k < a.len()
        invariant
            k <= a.len(),
            forall|l: int| 0 <= l < k ==> a@[l] == b@[l],
        decreases a.len() - k,
    {
        if a[k] != b[k] {
            return false;
        }
        k += 1;
    }
    assert(a@ =~= b@);
    true
}

/// True if the two vectors hold the same booleans.
#[verifier::loop_isolation(false)]
fn eq_bools(a: &Vec<bool>, b: &Vec<bool>) -> (r: bool)
    ensures
        r == (a@ == b@),
{
    if a.len() != b.len() {
        assert(a@.len() != b@.len());
        return false;
    }
    let mut k: usize = 0;
    while k < a.len()
        invariant
            k <= a.len(),
            forall|l: int| 0 <= l < k ==> a@[l] == b@[l],
        decreases a.len() - k,
    {
        if a[k] != b[k] {
            return false;
        }
        k += 1;
    }
    assert(a@ =~= b@);
    true
}

/// True if the two vectors hold the same strings.
#[verifier::loop_isolation(false)]
fn eq_strings(a: &Vec<String>, b: &Vec<String>) -> (r: bool)
    ensures
        r == (a.deep_view() == b.deep_view()),
{
    if a.len() != b.len() {
        assert(a.deep_view().len() != b.deep_view().len());
        return false;
    }
    let mut k: usize = 0;
    while k < a.len()
        invariant
            k <= a.len(),
            forall|l: int| 0 <= l < k ==> a.deep_view()[l] == b.deep_view()[l],
        decreases a.len() - k,
    {
        if !a[k].eq(&b[k]) {
            assert(a.deep_view()[k as int] != b.deep_view()[k as int]);
            return false;
        }
        k += 1;
    }
    assert(a.deep_view() =~= b.deep_view());
    true
}

/// True if the two vectors hold the same blobs.
#[verifier::loop_isolation(false)]
fn eq_blobs(a: &Vec<Vec<u8>>, b: &Vec<Vec<u8>>) -> (r: bool)
    ensures
        r == (a.deep_view() == b.deep_view()),
{
    if a.len() != b.len() {
        assert(a.deep_view().len() != b.deep_view().len());
        return false;
    }
    let mut k: usize = 0;
    while k < a.len()
        invariant
            k <= a.len(),
            forall|l: int| 0 <= l < k ==> a.deep_view()[l] == b.deep_view()[l],
        decreases a.len() - k,
    {
        let same = eq_bytes(&a[k], &b[k]);
        proof {
            assert(a@[k as int].deep_view() =~= a@[k as int]@);
            assert(b@[k as int].deep_view() =~= b@[k as int]@);
        }
        if !same {
            assert(a.deep_view()[k as int] != b.deep_view()[k as int]);
            return false;
        }
        assert(a.deep_view()[k as int] == b.deep_view()[k as int]);
        k += 1;
    }
    assert(a.deep_view() =~= b.deep_view());
    true
}

impl AstarteData {
    /// True if the two values are the same value.  Doubles compare by
    /// their bit patterns.
    pub fn eq(&self, other: &AstarteData) -> (r: bool)
        ensures
            r == (self@ == other@),
    {
        match (self, other) {
            (AstarteData::Double(a), AstarteData::Double(b)) => a == b,
            (AstarteData::Integer(a), AstarteData::Integer(b)) => a == b,
            (AstarteData::Boolean(a), AstarteData::Boolean(b)) => a == b,
            (AstarteData::LongInteger(a), AstarteData::LongInteger(b)) => a == b,
            (AstarteData::String(a), AstarteData::String(b)) => a.eq(b),
            (AstarteData::BinaryBlob(a), AstarteData::BinaryBlob(b)) => eq_bytes(a, b),
            (AstarteData::DateTime(a), AstarteData::DateTime(b)) => a == b,
            (AstarteData::DoubleArray(a), AstarteData::DoubleArray(b)) => eq_u64s(a, b),
            (AstarteData::IntegerArray(a), AstarteData::IntegerArray(b)) => eq_i32s(a, b),
            (AstarteData::BooleanArray(a), AstarteData::BooleanArray(b)) => eq_bools(a, b),
            (AstarteData::LongIntegerArray(a), AstarteData::LongIntegerArray(b)) => eq_i64s(a, b),
            (AstarteData::StringArray(a), AstarteData::StringArray(b)) => eq_strings(a, b),
            (AstarteData::BinaryBlobArray(a), AstarteData::BinaryBlobArray(b)) => eq_blobs(a, b),
            (AstarteData::DateTimeArray(a), AstarteData::DateTimeArray(b)) => eq_i64s(a, b),
            _ => false,
        }
    }

    /// The mapping type that this value belongs to.
    pub fn mapping_type(&self) -> (r: MappingType)
        ensures
            r == spec_data_mapping_type(self@),
    {
        match self {
            AstarteData::Double(_) => MappingType::Double,
            AstarteData::Integer(_) => MappingType::Integer,
            AstarteData::Boolean(_) => MappingType::Boolean,
            AstarteData::LongInteger(_) => MappingType::LongInteger,
            AstarteData::String(_) => MappingType::String,
            AstarteData::BinaryBlob(_) => MappingType::BinaryBlob,
            AstarteData::DateTime(_) => MappingType::DateTime,
            AstarteData::DoubleArray(_) => MappingType::DoubleArray,
            AstarteData::IntegerArray(_) => MappingType::IntegerArray,
            AstarteData::BooleanArray(_) => MappingType::BooleanArray,
            AstarteData::LongIntegerArray(_) => MappingType::LongIntegerArray,
            AstarteData::StringArray(_) => MappingType::StringArray,
            AstarteData::BinaryBlobArray(_) => MappingType::BinaryBlobArray,
            AstarteData::DateTimeArray(_) => MappingType::DateTimeArray,
        }
    }

    /// The name of the kind of this value, for error messages.
    pub fn display_type(&self) -> (r: &str)
        ensures
            r@ == spec_data_mapping_type(self@).str_spec(),
    {
        match self {
            AstarteData::Double(_) => "double",
            AstarteData::Integer(_) => "integer",
            AstarteData::Boolean(_) => "boolean",
            AstarteData::LongInteger(_) => "longinteger",
            AstarteData::String(_) => "string",
            AstarteData::BinaryBlob(_) => "binaryblob",
            AstarteData::DateTime(_) => "datetime",
            AstarteData::DoubleArray(_) => "doublearray",
            AstarteData::IntegerArray(_) => "integerarray",
            AstarteData::BooleanArray(_) => "booleanarray",
            AstarteData::LongIntegerArray(_) => "longintegerarray",
            AstarteData::StringArray(_) => "stringarray",
            AstarteData::BinaryBlobArray(_) => "binaryblobarray",
            AstarteData::DateTimeArray(_) => "datetimearray",
        }
    }

    /// True if every double in the value is finite.
    #[verifier::loop_isolation(false)]
    pub fn is_valid(&self) -> (r: bool)
        ensures
            r == data_valid(self@),
    {
        match self {
            AstarteData::Double(b) => {
                let r = bits_finite(*b);
                assert(self@ == DataView::Double(*b));
                assert(data_valid(self@) == spec_bits_finite(*b));
                r
            },
            AstarteData::DoubleArray(v) => {
                let mut k: usize = 0;
                let mut ok = true;
                while k < v.len()
                    invariant
                        k <= v.len(),
                        ok ==> forall|l: int| 0 <= l < k ==> spec_bits_finite(#[trigger] v@[l]),
                        !ok ==> exists|l: int| 0 <= l < k && !spec_bits_finite(#[trigger] v@[l]),
                    decreases v.len() - k,
                {
                    if !bits_finite(v[k]) {
                        ok = false;
                        assert(!spec_bits_finite(v@[k as int]));
                    }
                    k += 1;
                }
                proof {
                    if !ok {
                        let l = choose|l: int| 0 <= l < k && !spec_bits_finite(#[trigger] v@[l]);
                        assert(0 <= l < v@.len() && !spec_bits_finite(v@[l]));
                        assert(self@ == DataView::DoubleArray(v@));
                        assert(data_valid(self@) ==> spec_bits_finite(v@[l]));
                        assert(!data_valid(self@));
                    }
                }
                assert(ok == data_valid(self@));
                ok
            },
            _ => true,
        }
    }
}

/// Clones a value, preserving it exactly.
pub fn clone_data(value: &AstarteData) -> (r: AstarteData)
    ensures
        r@ == value@,
{
    match value {
        AstarteData::Double(b) => AstarteData::Double(*b),
        AstarteData::Integer(v) => AstarteData::Integer(*v),
        AstarteData::Boolean(v) => AstarteData::Boolean(*v),
        AstarteData::LongInteger(v) => AstarteData::LongInteger(*v),
        AstarteData::String(s) => AstarteData::String(s.clone()),
        AstarteData::BinaryBlob(v) => AstarteData::BinaryBlob(clone_bytes(v)),
        AstarteData::DateTime(v) => AstarteData::DateTime(*v),
        AstarteData::DoubleArray(v) => AstarteData::DoubleArray(clone_u64s(v)),
        AstarteData::IntegerArray(v) => AstarteData::IntegerArray(clone_i32s(v)),
        AstarteData::BooleanArray(v) => AstarteData::BooleanArray(clone_bools(v)),
        AstarteData::LongIntegerArray(v) => AstarteData::LongIntegerArray(clone_i64s(v)),
        AstarteData::StringArray(v) => AstarteData::StringArray(clone_strings(v)),
        AstarteData::BinaryBlobArray(v) => AstarteData::BinaryBlobArray(clone_blobs(v)),
        AstarteData::DateTimeArray(v) => AstarteData::DateTimeArray(clone_i64s(v)),
    }
}

impl Clone for AstarteData {
    fn clone(&self) -> (r: Self)
        ensures
            r@ == self@,
    {
        clone_data(self)
    }
}

/// Copies a byte vector.
#[verifier::loop_isolation(false)]
fn clone_bytes(v: &Vec<u8>) -> (r: Vec<u8>)
    ensures
        r@ == v@,
{
    let mut r: Vec<u8> = Vec::new();
    let mut k: usize = 0;
    while k < v.len()
        invariant
            k <= v.len(),
            r@ =~= v@.take(k as int),
        decreases v.len() - k,
    {
        r.push(v[k]);
        k += 1;
    }
    assert(r@ =~= v@);
    r
}

/// Copies a vector of 64-bit patterns.
#[verifier::loop_isolation(false)]
fn clone_u64s(v: &Vec<u64>) -> (r: Vec<u64>)
    ensures
        r@ == v@,
{
    let mut r: Vec<u64> = Vec::new();
    let mut k: usize = 0;
    while k < v.len()
        invariant
            k <= v.len(),
            r@ =~= v@.take(k as int),
        decreases v.len() - k,
    {
        r.push(v[k]);
        k += 1;
    }
    assert(r@ =~= v@);
    r
}

/// Copies a vector of 32-bit integers.
#[verifier::loop_isolation(false)]
fn clone_i32s(v: &Vec<i32>) -> (r: Vec<i32>)
    ensures
        r@ == v@,
{
    let mut r: Vec<i32> = Vec::new();
    let mut k: usize = 0;
    while k < v.len()
        invariant
            k <= v.len(),
            r@ =~= v@.take(k as int),
        decreases v.len() - k,
    {
        r.push(v[k]);
        k += 1;
    }
    assert(r@ =~= v@);
    r
}

/// Copies a vector of 64-bit integers.
#[verifier::loop_isolation(false)]
fn clone_i64s(v: &Vec<i64>) -> (r: Vec<i64>)
    ensures
        r@ == v@,
{
    let mut r: Vec<i64> = Vec::new();
    let mut k: usize = 0;
    while k < v.len()
        invariant
            k <= v.len(),
            r@ =~= v@.take(k as int),
        decreases v.len() - k,
    {
        r.push(v[k]);
        k += 1;
    }
    assert(r@ =~= v@);
    r
}

/// Copies a vector of booleans.
#[verifier::loop_isolation(false)]
fn clone_bools(v: &Vec<bool>) -> (r: Vec<bool>)
    ensures
        r@ == v@,
{
    let mut r: Vec<bool> = Vec::new();
    let mut k: usize = 0;
    while k < v.len()
        invariant
            k <= v.len(),
            r@ =~= v@.take(k as int),
        decreases v.len() - k,
    {
        r.push(v[k]);
        k += 1;
    }
    assert(r@ =~= v@);
    r
}

/// Copies a vector of strings.
#[verifier::loop_isolation(false)]
fn clone_strings(v: &Vec<String>) -> (r: Vec<String>)
    ensures
        r.deep_view() == v.deep_view(),
{
    let mut r: Vec<String> = Vec::new();
    let mut k: usize = 0;
    while k < v.len()
        invariant
            k <= v.len(),
            r.deep_view() =~= v.deep_view().take(k as int),
        decreases v.len() - k,
    {
        r.push(v[k].clone());
        k += 1;
    }
    assert(r.deep_view() =~= v.deep_view());
    r
}

/// Copies a vector of blobs.
#[verifier::loop_isolation(false)]
fn clone_blobs(v: &Vec<Vec<u8>>) -> (r: Vec<Vec<u8>>)
    ensures
        r.deep_view() == v.deep_view(),
{
    let mut r: Vec<Vec<u8>> = Vec::new();
    let mut k: usize = 0;
    while k < v.len()
        invariant
            k <= v.len(),
            r.deep_view() =~= v.deep_view().take(k as int),
        decreases v.len() - k,
    {
        r.push(clone_bytes(&v[k]));
        k += 1;
    }
    assert(r.deep_view() =~= v.deep_view());
    r
}

} // verus!
