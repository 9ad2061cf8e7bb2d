//! Attribute values as plain sequences: copying, appending and comparing them.
//! Float values are IEEE-754 binary32 bit patterns, and two of them are equal as
//! floats are: a NaN equals nothing and the two zeros are equal.

use vstd::prelude::*;
use crate::attributes::{AttributeStorage, AttributeType, storage_len, storage_type};
use crate::params::{f32_bits_eq, f32_bits_equal};

verus! {

/// The values of an attribute, as sequences.
pub enum StorageValues {
    Float(Seq<u32>),
    Int(Seq<i32>),
    Vec2(Seq<[u32; 2]>),
    Vec3(Seq<[u32; 3]>),
    Vec4(Seq<[u32; 4]>),
}

/// The values held by a storage.
pub open spec fn storage_values(s: AttributeStorage) -> StorageValues {
    match s {
        AttributeStorage::Float(v) => StorageValues::Float(v@),
        AttributeStorage::Int(v) => StorageValues::Int(v@),
        AttributeStorage::Vec2(v) => StorageValues::Vec2(v@),
        AttributeStorage::Vec3(v) => StorageValues::Vec3(v@),
        AttributeStorage::Vec4(v) => StorageValues::Vec4(v@),
    }
}

/// No values of type `t`.
pub open spec fn values_empty(t: AttributeType) -> StorageValues {
    match t {
        AttributeType::Float => StorageValues::Float(Seq::empty()),
        AttributeType::Int => StorageValues::Int(Seq::empty()),
        AttributeType::Vec2 => StorageValues::Vec2(Seq::empty()),
        AttributeType::Vec3 => StorageValues::Vec3(Seq::empty()),
        AttributeType::Vec4 => StorageValues::Vec4(Seq::empty()),
    }
}

/// The values of `a` followed by those of `b`, where both have one type; `a`
/// otherwise.
pub open spec fn values_concat(a: StorageValues, b: StorageValues) -> StorageValues {
    match (a, b) {
        (StorageValues::Float(x), StorageValues::Float(y)) => StorageValues::Float(x + y),
        (StorageValues::Int(x), StorageValues::Int(y)) => StorageValues::Int(x + y),
        (StorageValues::Vec2(x), StorageValues::Vec2(y)) => StorageValues::Vec2(x + y),
        (StorageValues::Vec3(x), StorageValues::Vec3(y)) => StorageValues::Vec3(x + y),
        (StorageValues::Vec4(x), StorageValues::Vec4(y)) => StorageValues::Vec4(x + y),
        _ => a,
    }
}

/// Whether two storages compare equal: one type, one length, and equal values at
/// each position, floats compared as floats.
pub open spec fn storage_equal(a: AttributeStorage, b: AttributeStorage) -> bool {
    match (a, b) {
        (AttributeStorage::Float(x), AttributeStorage::Float(y)) => x@.len() == y@.len()
            && forall|i: int| 0 <= i < x@.len() ==> f32_bits_eq(#[trigger] x@[i], y@[i]),
        (AttributeStorage::Int(x), AttributeStorage::Int(y)) => x@ == y@,
        (AttributeStorage::Vec2(x), AttributeStorage::Vec2(y)) => x@.len() == y@.len()
            && forall|i: int, c: int| 0 <= i < x@.len() && 0 <= c < 2 ==> f32_bits_eq(#[trigger] x@[i][c], y@[i][c]),
        (AttributeStorage::Vec3(x), AttributeStorage::Vec3(y)) => x@.len() == y@.len()
            && forall|i: int, c: int| 0 <= i < x@.len() && 0 <= c < 3 ==> f32_bits_eq(#[trigger] x@[i][c], y@[i][c]),
        (AttributeStorage::Vec4(x), AttributeStorage::Vec4(y)) => x@.len() == y@.len()
            && forall|i: int, c: int| 0 <= i < x@.len() && 0 <= c < 4 ==> f32_bits_eq(#[trigger] x@[i][c], y@[i][c]),
        _ => false,
    }
}

/// A copy of the values of a slice.
pub fn copy_values<T: Copy>(v: &[T]) -> (r: Vec<T>)
    ensures
        r@ == v@,
{
    let mut out: Vec<T> = Vec::new();
    let mut i: usize = 0;
    while i < v.len()
        invariant
            0 <= i <= v@.len(),
            out@ == v@.take(i as int),
        decreases v@.len() - i,
    {
        out.push(v[i]);
        i = i + 1;
        proof {
            assert(out@ =~= v@.take(i as int));
        }
    }
    assert(v@.take(v@.len() as int) =~= v@);
    out
}

/// Appends copies of the values of `v`.
pub fn extend_values<T: Copy>(out: &mut Vec<T>, v: &[T])
    ensures
        final(out)@ == old(out)@ + v@,
{
    let ghost start = out@;
    let mut i: usize = 0;
    while i < v.len()
        invariant
            0 <= i <= v@.len(),
            out@ == start + v@.take(i as int),
        decreases v@.len() - i,
    {
        out.push(v[i]);
        i = i + 1;
        proof {
            assert(out@ =~= start + v@.take(i as int));
        }
    }
    assert(v@.take(v@.len() as int) =~= v@);
}

/// A copy of a storage.
pub fn copy_storage(s: &AttributeStorage) -> (r: AttributeStorage)
    ensures
        storage_values(r) == storage_values(*s),
        storage_type(r) == storage_type(*s),
        storage_len(r) == storage_len(*s),
{
    match s {
        AttributeStorage::Float(v) => AttributeStorage::Float(copy_values(v.as_slice())),
        AttributeStorage::Int(v) => AttributeStorage::Int(copy_values(v.as_slice())),
        AttributeStorage::Vec2(v) => AttributeStorage::Vec2(copy_values(v.as_slice())),
        AttributeStorage::Vec3(v) => AttributeStorage::Vec3(copy_values(v.as_slice())),
        AttributeStorage::Vec4(v) => AttributeStorage::Vec4(copy_values(v.as_slice())),
    }
}

/// An empty storage of type `t`.
pub fn empty_storage(t: AttributeType) -> (r: AttributeStorage)
    ensures
        storage_values(r) == values_empty(t),
        storage_type(r) == t,
{
    match t {
        AttributeType::Float => AttributeStorage::Float(Vec::new()),
        AttributeType::Int => AttributeStorage::Int(Vec::new()),
        AttributeType::Vec2 => AttributeStorage::Vec2(Vec::new()),
        AttributeType::Vec3 => AttributeStorage::Vec3(Vec::new()),
        AttributeType::Vec4 => AttributeStorage::Vec4(Vec::new()),
    }
}

/// `out` with the values of `other` appended, where both have one type; `out`
/// unchanged and `false` otherwise.
pub fn append_storage(out: AttributeStorage, other: &AttributeStorage) -> (r: (AttributeStorage, bool))
    ensures
        r.1 == (storage_type(out) == storage_type(*other)),
        storage_type(r.0) == storage_type(out),
        storage_values(r.0) == values_concat(storage_values(out), storage_values(*other)),
{
    match (out, other) {
        (AttributeStorage::Float(mut a), AttributeStorage::Float(b)) => {
            extend_values(&mut a, b.as_slice());
            (AttributeStorage::Float(a), true)
        },
        (AttributeStorage::Int(mut a), AttributeStorage::Int(b)) => {
            extend_values(&mut a, b.as_slice());
            (AttributeStorage::Int(a), true)
        },
        (AttributeStorage::Vec2(mut a), AttributeStorage::Vec2(b)) => {
            extend_values(&mut a, b.as_slice());
            (AttributeStorage::Vec2(a), true)
        },
        (AttributeStorage::Vec3(mut a), AttributeStorage::Vec3(b)) => {
            extend_values(&mut a, b.as_slice());
            (AttributeStorage::Vec3(a), true)
        },
        (AttributeStorage::Vec4(mut a), AttributeStorage::Vec4(b)) => {
            extend_values(&mut a, b.as_slice());
            (AttributeStorage::Vec4(a), true)
        },
        (o, _) => (o, false),
    }
}

/// Whether two bit-pattern tuples compare equal as floats, component by component.
fn components_equal<const N: usize>(a: &[u32; N], b: &[u32; N]) -> (r: bool)
    ensures
        r == forall|c: int| 0 <= c < N ==> f32_bits_eq(#[trigger] a@[c], b@[c]),
{
    let mut c: usize = 0;
    while c < N
        invariant
            0 <= c <= N,
            forall|k: int| 0 <= k < c ==> f32_bits_eq(#[trigger] a@[k], b@[k]),
        decreases N - c,
    {
        if !f32_bits_equal(a[c], b[c]) {
            return false;
        }
        c = c + 1;
    }
    true
}

/// Whether two slices of bit-pattern tuples compare equal as floats.
fn tuples_equal<const N: usize>(x: &[[u32; N]], y: &[[u32; N]]) -> (r: bool)
    ensures
        r == (x@.len() == y@.len() && forall|i: int, c: int| 0 <= i < x@.len() && 0 <= c < N
            ==> f32_bits_eq(#[trigger] x@[i][c], y@[i][c])),
{
    if x.len() != y.len() {
        return false;
    }
    let mut i: usize = 0;
    while i < x.len()
        invariant
            x@.len() == y@.len(),
            0 <= i <= x@.len(),
            forall|k: int, c: int| 0 <= k < i && 0 <= c < N ==> f32_bits_eq(#[trigger] x@[k][c], y@[k][c]),
        decreases x@.len() - i,
    {
        if !components_equal(&x[i], &y[i]) {
            return false;
        }
        i = i + 1;
    }
    true
}

/// Whether two slices of bit patterns compare equal as floats.
fn floats_equal(x: &[u32], y: &[u32]) -> (r: bool)
    ensures
        r == (x@.len() == y@.len() && forall|i: int| 0 <= i < x@.len() ==> f32_bits_eq(#[trigger] x@[i], y@[i])),
{
    if x.len() != y.len() {
        return false;
    }
    let mut i: usize = 0;
    while i < x.len()
        invariant
            x@.len() == y@.len(),
            0 <= i <= x@.len(),
            forall|k: int| 0 <= k < i ==> f32_bits_eq(#[trigger] x@[k], y@[k]),
        decreases x@.len() - i,
    {
        if !f32_bits_equal(x[i], y[i]) {
            assert(!f32_bits_eq(x@[i as int], y@[i as int]));
            return false;
        }
        i = i + 1;
    }
    true
}

/// Whether two slices of integers are equal.
fn ints_equal(x: &[i32], y: &[i32]) -> (r: bool)
    ensures
        r == (x@ == y@),
{
    if x.len() != y.len() {
        return false;
    }
    let mut i: usize = 0;
    while i < x.len()
        invariant
            x@.len() == y@.len(),
            0 <= i <= x@.len(),
            forall|k: int| 0 <= k < i ==> x@[k] == y@[k],
        decreases x@.len() - i,
    {
        if x[i] != y[i] {
            assert(x@[i as int] != y@[i as int]);
            return false;
        }
        i = i + 1;
    }
    assert(x@ =~= y@);
    true
}

/// Whether two storages compare equal, floats compared as floats.
pub fn storage_equals(a: &AttributeStorage, b: &AttributeStorage) -> (r: bool)
    ensures
        r == storage_equal(*a, *b),
{
    match (a, b) {
        (AttributeStorage::Float(x), AttributeStorage::Float(y)) => floats_equal(x.as_slice(), y.as_slice()),
        (AttributeStorage::Int(x), AttributeStorage::Int(y)) => ints_equal(x.as_slice(), y.as_slice()),
        (AttributeStorage::Vec2(x), AttributeStorage::Vec2(y)) => tuples_equal(x.as_slice(), y.as_slice()),
        (AttributeStorage::Vec3(x), AttributeStorage::Vec3(y)) => tuples_equal(x.as_slice(), y.as_slice()),
        (AttributeStorage::Vec4(x), AttributeStorage::Vec4(y)) => tuples_equal(x.as_slice(), y.as_slice()),
        _ => false,
    }
}

/// The items of `values` at the given indices that exist, in the order of the indices.
pub open spec fn picked<T>(values: Seq<T>, indices: Seq<usize>) -> Seq<T>
    decreases indices.len(),
{
    if indices.len() == 0 {
        Seq::empty()
    } else {
        let rest = picked(values, indices.drop_last());
        let at = indices.last() as int;
        if at < values.len() {
            rest.push(values[at])
        } else {
            rest
        }
    }
}

/// The values of a storage at the given indices that exist, in order.
pub open spec fn picked_values(v: StorageValues, indices: Seq<usize>) -> StorageValues {
    match v {
        StorageValues::Float(x) => StorageValues::Float(picked(x, indices)),
        StorageValues::Int(x) => StorageValues::Int(picked(x, indices)),
        StorageValues::Vec2(x) => StorageValues::Vec2(picked(x, indices)),
        StorageValues::Vec3(x) => StorageValues::Vec3(picked(x, indices)),
        StorageValues::Vec4(x) => StorageValues::Vec4(picked(x, indices)),
    }
}

/// The items of `values` at the given indices that exist, in the order of the indices.
pub fn pick_values<T: Copy>(values: &[T], indices: &[usize]) -> (r: Vec<T>)
    ensures
        r@ == picked(values@, indices@),
{
    let mut out: Vec<T> = Vec::new();
    let mut k: usize = 0;
    while k < indices.len()
        invariant
            0 <= k <= indices@.len(),
            out@ == picked(values@, indices@.take(k as int)),
        decreases indices@.len() - k,
    {
        let at = indices[k];
        if at < values.len() {
            out.push(values[at]);
        }
        proof {
            assert(indices@.take(k + 1).drop_last() =~= indices@.take(k as int));
        }
        k = k + 1;
    }
    assert(indices@.take(indices@.len() as int) =~= indices@);
    out
}

/// The values of a storage at the given indices that exist, in order.
pub fn pick_storage(s: &AttributeStorage, indices: &[usize]) -> (r: AttributeStorage)
    ensures
        storage_values(r) == picked_values(storage_values(*s), indices@),
        storage_type(r) == storage_type(*s),
{
    match s {
        AttributeStorage::Float(v) => AttributeStorage::Float(pick_values(v.as_slice(), indices)),
        AttributeStorage::Int(v) => AttributeStorage::Int(pick_values(v.as_slice(), indices)),
        AttributeStorage::Vec2(v) => AttributeStorage::Vec2(pick_values(v.as_slice(), indices)),
        AttributeStorage::Vec3(v) => AttributeStorage::Vec3(pick_values(v.as_slice(), indices)),
        AttributeStorage::Vec4(v) => AttributeStorage::Vec4(pick_values(v.as_slice(), indices)),
    }
}

} // verus!
