//! The TensorFlow Lite file format.
//!
//! A file is a tree of tables. A table begins with the distance back to its vtable,
//! which lists, for each field, how far from the table the field lies; a field that
//! is absent has the distance 0, or none at all. Vectors, and tables within tables,
//! are referred to by the distance from the reference. All numbers are little-endian.
use crate::model;
use crate::model::{
    Buffer, Model, Operator, OperatorCode, Options, Quantization, SubGraph, Tensor,
};
use vstd::prelude::*;

verus! {

/// `n` bytes from position `p` on lie within the file.
pub open spec fn inside(b: Seq<u8>, p: int, n: int) -> bool {
    0 <= p && p + n <= b.len()
}

/// The 16-bit number at a position.
pub open spec fn u16_at(b: Seq<u8>, p: int) -> int {
    b[p] + 0x100 * b[p + 1]
}

/// The 32-bit number at a position.
pub open spec fn u32_at(b: Seq<u8>, p: int) -> int {
    b[p] + 0x100 * b[p + 1] + 0x1_0000 * b[p + 2] + 0x100_0000 * b[p + 3]
}

/// The signed 64-bit number at a position.
pub open spec fn i64_at(b: Seq<u8>, p: int) -> int {
    u32_at(b, p) + 0x1_0000_0000 * model::le_i32(b, p + 4)
}

/// Where a field of a table lies.
pub enum Slot {
    /// The table leads outside the file.
    Broken,
    /// The table has no such field.
    Absent,
    /// The position of the field.
    At(int),
}

/// Where field `k` of the table at `t` lies.
pub open spec fn slot(b: Seq<u8>, t: int, k: int) -> Slot {
    let v = t - model::le_i32(b, t);
    if !inside(b, t, 4) || !inside(b, v, 2) {
        Slot::Broken
    } else if 6 + 2 * k > u16_at(b, v) {
        Slot::Absent
    } else if !inside(b, v + 4 + 2 * k, 2) {
        Slot::Broken
    } else if u16_at(b, v + 4 + 2 * k) == 0 {
        Slot::Absent
    } else {
        Slot::At(t + u16_at(b, v + 4 + 2 * k))
    }
}

/// What a reference at `f` leads to, if the reference lies within the file.
pub open spec fn target(b: Seq<u8>, f: int) -> Option<int> {
    if inside(b, f, 4) {
        Some(f + u32_at(b, f))
    } else {
        None
    }
}

/// A field of one signed byte, if the file holds it.
pub open spec fn i8_field(b: Seq<u8>, t: int, k: int, default: i8) -> Option<i8> {
    match slot(b, t, k) {
        Slot::Broken => None,
        Slot::Absent => Some(default),
        Slot::At(p) => if inside(b, p, 1) {
            Some(model::signed_byte(b[p]))
        } else {
            None
        },
    }
}

/// A field of one byte, if the file holds it.
pub open spec fn u8_field(b: Seq<u8>, t: int, k: int, default: u8) -> Option<u8> {
    match slot(b, t, k) {
        Slot::Broken => None,
        Slot::Absent => Some(default),
        Slot::At(p) => if inside(b, p, 1) {
            Some(b[p])
        } else {
            None
        },
    }
}

/// A field of a signed 32-bit number, if the file holds it.
pub open spec fn i32_field(b: Seq<u8>, t: int, k: int, default: i32) -> Option<i32> {
    match slot(b, t, k) {
        Slot::Broken => None,
        Slot::Absent => Some(default),
        Slot::At(p) => if inside(b, p, 4) {
            Some(model::le_i32(b, p))
        } else {
            None
        },
    }
}

/// A field of a 32-bit number, if the file holds it.
pub open spec fn u32_field(b: Seq<u8>, t: int, k: int, default: u32) -> Option<u32> {
    match slot(b, t, k) {
        Slot::Broken => None,
        Slot::Absent => Some(default),
        Slot::At(p) => if inside(b, p, 4) {
            Some(u32_at(b, p) as u32)
        } else {
            None
        },
    }
}

/// A vector: where its elements begin, and how many there are.
pub struct Span {
    pub start: int,
    pub count: int,
}

/// The vector that a reference at `f` leads to, if the file holds all of it.
pub open spec fn span(b: Seq<u8>, f: int, size: int) -> Option<Span> {
    match target(b, f) {
        None => None,
        Some(p) => if inside(b, p, 4) && inside(b, p + 4, size * u32_at(b, p)) {
            Some(Span { start: p + 4, count: u32_at(b, p) })
        } else {
            None
        },
    }
}

/// A field of a vector, if the file holds it.
pub open spec fn span_field(b: Seq<u8>, t: int, k: int, size: int) -> Option<Option<Span>> {
    match slot(b, t, k) {
        Slot::Broken => None,
        Slot::Absent => Some(None),
        Slot::At(f) => match span(b, f, size) {
            Some(s) => Some(Some(s)),
            None => None,
        },
    }
}

/// The elements of a vector of bytes.
pub open spec fn u8_list(b: Seq<u8>, s: Span) -> Seq<u8> {
    Seq::new(s.count as nat, |i: int| b[s.start + i])
}

/// The elements of a vector of signed 32-bit numbers.
pub open spec fn i32_list(b: Seq<u8>, s: Span) -> Seq<i32> {
    Seq::new(s.count as nat, |i: int| model::le_i32(b, s.start + 4 * i))
}

/// The elements of a vector of 32-bit numbers.
pub open spec fn u32_list(b: Seq<u8>, s: Span) -> Seq<u32> {
    Seq::new(s.count as nat, |i: int| u32_at(b, s.start + 4 * i) as u32)
}

/// The elements of a vector of signed 64-bit numbers.
pub open spec fn i64_list(b: Seq<u8>, s: Span) -> Seq<i64> {
    Seq::new(s.count as nat, |i: int| i64_at(b, s.start + 8 * i) as i64)
}

/// The position of an element of a vector of tables.
pub open spec fn table_at(b: Seq<u8>, s: Span, i: int) -> int {
    s.start + 4 * i + u32_at(b, s.start + 4 * i)
}

/// A position that the reader may compute.
pub open spec fn near(p: int) -> bool {
    -0x1_0000_0000_0000_0000_0000 <= p <= 0x1_0000_0000_0000_0000_0000
}

fn is_inside(bytes: &[u8], p: i128, n: i128) -> (r: bool)
    requires
        near(p as int),
        near(n as int),
    ensures
        r == inside(bytes@, p as int, n as int),
        bytes@.len() <= usize::MAX,
{
    let len: usize = bytes.len();
    p >= 0 && p + n <= len as i128
}

fn read_u16(bytes: &[u8], p: i128) -> (r: u16)
    requires
        inside(bytes@, p as int, 2),
    ensures
        r == u16_at(bytes@, p as int),
{
    let i: usize = p as usize;
    bytes[i] as u16 + 0x100 * bytes[i + 1] as u16
}

fn read_u32(bytes: &[u8], p: i128) -> (r: u32)
    requires
        inside(bytes@, p as int, 4),
    ensures
        r == u32_at(bytes@, p as int),
{
    let i: usize = p as usize;
    bytes[i] as u32 + 0x100 * bytes[i + 1] as u32 + 0x1_0000 * bytes[i + 2] as u32 + 0x100_0000
        * bytes[i + 3] as u32
}

fn read_i32(bytes: &[u8], p: i128) -> (r: i32)
    requires
        inside(bytes@, p as int, 4),
    ensures
        r == model::le_i32(bytes@, p as int),
{
    let word: u32 = read_u32(bytes, p);
    if word < 0x8000_0000 {
        word as i32
    } else {
        (word as i64 - 0x1_0000_0000) as i32
    }
}

fn read_i64(bytes: &[u8], p: i128) -> (r: i64)
    requires
        inside(bytes@, p as int, 8),
    ensures
        r == i64_at(bytes@, p as int),
{
    assert(bytes.len() == bytes@.len());
    let low: u32 = read_u32(bytes, p);
    let high: i32 = read_i32(bytes, p + 4);
    low as i64 + 0x1_0000_0000 * high as i64
}

/// Where a field of a table lies; `None` where the table has no such field, and an
/// error where the table leads outside the file.
fn find(bytes: &[u8], t: i128, k: u16) -> (r: Result<Option<i128>, ()>)
    requires
        near(t as int),
        k < 0x100,
    ensures
        match r {
            Ok(Some(p)) => slot(bytes@, t as int, k as int) == Slot::At(p as int) && near(p as int),
            Ok(None) => slot(bytes@, t as int, k as int) == Slot::Absent,
            Err(_) => slot(bytes@, t as int, k as int) == Slot::Broken,
        },
{
    if !is_inside(bytes, t, 4) {
        return Err(());
    }
    let v: i128 = t - read_i32(bytes, t) as i128;
    if !is_inside(bytes, v, 2) {
        return Err(());
    }
    if 6 + 2 * k > read_u16(bytes, v) {
        return Ok(None);
    }
    let entry: i128 = v + 4 + 2 * k as i128;
    if !is_inside(bytes, entry, 2) {
        return Err(());
    }
    let distance: u16 = read_u16(bytes, entry);
    if distance == 0 {
        Ok(None)
    } else {
        Ok(Some(t + distance as i128))
    }
}

/// What a reference leads to, or an error where it lies outside the file.
fn follow(bytes: &[u8], f: i128) -> (r: Result<i128, ()>)
    requires
        near(f as int),
    ensures
        match r {
            Ok(p) => target(bytes@, f as int) == Some(p as int) && near(p as int),
            Err(_) => target(bytes@, f as int) is None,
        },
{
    if is_inside(bytes, f, 4) {
        Ok(f + read_u32(bytes, f) as i128)
    } else {
        Err(())
    }
}

fn read_i8_field(bytes: &[u8], t: i128, k: u16, default: i8) -> (r: Result<i8, ()>)
    requires
        near(t as int),
        k < 0x100,
    ensures
        match r {
            Ok(v) => i8_field(bytes@, t as int, k as int, default) == Some(v),
            Err(_) => i8_field(bytes@, t as int, k as int, default) is None,
        },
{
    match find(bytes, t, k)? {
        Some(p) => {
            if is_inside(bytes, p, 1) {
                let byte: u8 = bytes[p as usize];
                if byte < 128 {
                    Ok(byte as i8)
                } else {
                    Ok((byte as i16 - 256) as i8)
                }
            } else {
                Err(())
            }
        },
        None => Ok(default),
    }
}

fn read_u8_field(bytes: &[u8], t: i128, k: u16, default: u8) -> (r: Result<u8, ()>)
    requires
        near(t as int),
        k < 0x100,
    ensures
        match r {
            Ok(v) => u8_field(bytes@, t as int, k as int, default) == Some(v),
            Err(_) => u8_field(bytes@, t as int, k as int, default) is None,
        },
{
    match find(bytes, t, k)? {
        Some(p) => {
            if is_inside(bytes, p, 1) {
                Ok(bytes[p as usize])
            } else {
                Err(())
            }
        },
        None => Ok(default),
    }
}

fn read_i32_field(bytes: &[u8], t: i128, k: u16, default: i32) -> (r: Result<i32, ()>)
    requires
        near(t as int),
        k < 0x100,
    ensures
        match r {
            Ok(v) => i32_field(bytes@, t as int, k as int, default) == Some(v),
            Err(_) => i32_field(bytes@, t as int, k as int, default) is None,
        },
{
    match find(bytes, t, k)? {
        Some(p) => {
            if is_inside(bytes, p, 4) {
                Ok(read_i32(bytes, p))
            } else {
                Err(())
            }
        },
        None => Ok(default),
    }
}

fn read_u32_field(bytes: &[u8], t: i128, k: u16, default: u32) -> (r: Result<u32, ()>)
    requires
        near(t as int),
        k < 0x100,
    ensures
        match r {
            Ok(v) => u32_field(bytes@, t as int, k as int, default) == Some(v),
            Err(_) => u32_field(bytes@, t as int, k as int, default) is None,
        },
{
    match find(bytes, t, k)? {
        Some(p) => {
            if is_inside(bytes, p, 4) {
                Ok(read_u32(bytes, p))
            } else {
                Err(())
            }
        },
        None => Ok(default),
    }
}

/// A vector as it is read.
#[derive(Clone, Copy)]
struct List {
    start: i128,
    count: u32,
}

impl List {
    spec fn span(self) -> Span {
        Span { start: self.start as int, count: self.count as int }
    }
}

/// Finds a field of a vector.
fn find_list(bytes: &[u8], t: i128, k: u16, size: u8) -> (r: Result<Option<List>, ()>)
    requires
        near(t as int),
        k < 0x100,
    ensures
        match r {
            Ok(Some(l)) => {
                &&& span_field(bytes@, t as int, k as int, size as int) == Some(Some(l.span()))
                &&& inside(bytes@, l.start as int, size * l.count)
                &&& bytes@.len() <= usize::MAX
            },
            Ok(None) => span_field(bytes@, t as int, k as int, size as int) == Some(None::<Span>),
            Err(_) => span_field(bytes@, t as int, k as int, size as int) is None,
        },
{
    match find(bytes, t, k)? {
        Some(f) => {
            let p: i128 = follow(bytes, f)?;
            if !is_inside(bytes, p, 4) {
                return Err(());
            }
            let count: u32 = read_u32(bytes, p);
            proof {
                assert(0 <= size * count <= 0xff * 0xffff_ffff) by (nonlinear_arith)
                    requires
                        0 <= size <= 0xff,
                        0 <= count <= 0xffff_ffff,
                ;
            }
            if !is_inside(bytes, p + 4, size as i128 * count as i128) {
                return Err(());
            }
            Ok(Some(List { start: p + 4, count }))
        },
        None => Ok(None),
    }
}

/// The vector is that of the field.
pub open spec fn u8_list_is(b: Seq<u8>, field: Option<Option<Span>>, list: Option<Vec<u8>>) -> bool {
    match (field, list) {
        (Some(Some(s)), Some(v)) => v@ == u8_list(b, s),
        (Some(None), None) => true,
        _ => false,
    }
}

/// The vector is that of the field.
pub open spec fn i32_list_is(
    b: Seq<u8>,
    field: Option<Option<Span>>,
    list: Option<Vec<i32>>,
) -> bool {
    match (field, list) {
        (Some(Some(s)), Some(v)) => v@ == i32_list(b, s),
        (Some(None), None) => true,
        _ => false,
    }
}

/// The vector is that of the field.
pub open spec fn u32_list_is(
    b: Seq<u8>,
    field: Option<Option<Span>>,
    list: Option<Vec<u32>>,
) -> bool {
    match (field, list) {
        (Some(Some(s)), Some(v)) => v@ == u32_list(b, s),
        (Some(None), None) => true,
        _ => false,
    }
}

/// The vector is that of the field.
pub open spec fn i64_list_is(
    b: Seq<u8>,
    field: Option<Option<Span>>,
    list: Option<Vec<i64>>,
) -> bool {
    match (field, list) {
        (Some(Some(s)), Some(v)) => v@ == i64_list(b, s),
        (Some(None), None) => true,
        _ => false,
    }
}

fn read_u8_list(bytes: &[u8], t: i128, k: u16) -> (r: Result<Option<Vec<u8>>, ()>)
    requires
        near(t as int),
        k < 0x100,
    ensures
        match r {
            Ok(list) => u8_list_is(bytes@, span_field(bytes@, t as int, k as int, 1), list),
            Err(_) => span_field(bytes@, t as int, k as int, 1) is None,
        },
{
    match find_list(bytes, t, k, 1)? {
        Some(l) => {
            let mut v: Vec<u8> = Vec::new();
            let mut i: u32 = 0;
            while i < l.count
                invariant
                    i <= l.count,
                    bytes@.len() <= usize::MAX,
                    inside(bytes@, l.start as int, l.count as int),
                    v@ == u8_list(bytes@, l.span()).take(i as int),
                decreases l.count - i,
            {
                v.push(bytes[(l.start + i as i128) as usize]);
                assert(v@ =~= u8_list(bytes@, l.span()).take(i + 1));
                i = i + 1;
            }
            assert(v@ =~= u8_list(bytes@, l.span()));
            Ok(Some(v))
        },
        None => Ok(None),
    }
}

fn read_i32_list(bytes: &[u8], t: i128, k: u16) -> (r: Result<Option<Vec<i32>>, ()>)
    requires
        near(t as int),
        k < 0x100,
    ensures
        match r {
            Ok(list) => i32_list_is(bytes@, span_field(bytes@, t as int, k as int, 4), list),
            Err(_) => span_field(bytes@, t as int, k as int, 4) is None,
        },
{
    match find_list(bytes, t, k, 4)? {
        Some(l) => {
            let mut v: Vec<i32> = Vec::new();
            let mut i: u32 = 0;
            while i < l.count
                invariant
                    i <= l.count,
                    bytes@.len() <= usize::MAX,
                    inside(bytes@, l.start as int, 4 * l.count),
                    v@ == i32_list(bytes@, l.span()).take(i as int),
                decreases l.count - i,
            {
                v.push(read_i32(bytes, l.start + 4 * i as i128));
                assert(v@ =~= i32_list(bytes@, l.span()).take(i + 1));
                i = i + 1;
            }
            assert(v@ =~= i32_list(bytes@, l.span()));
            Ok(Some(v))
        },
        None => Ok(None),
    }
}

fn read_u32_list(bytes: &[u8], t: i128, k: u16) -> (r: Result<Option<Vec<u32>>, ()>)
    requires
        near(t as int),
        k < 0x100,
    ensures
        match r {
            Ok(list) => u32_list_is(bytes@, span_field(bytes@, t as int, k as int, 4), list),
            Err(_) => span_field(bytes@, t as int, k as int, 4) is None,
        },
{
    match find_list(bytes, t, k, 4)? {
        Some(l) => {
            let mut v: Vec<u32> = Vec::new();
            let mut i: u32 = 0;
            while i < l.count
                invariant
                    i <= l.count,
                    bytes@.len() <= usize::MAX,
                    inside(bytes@, l.start as int, 4 * l.count),
                    v@ == u32_list(bytes@, l.span()).take(i as int),
                decreases l.count - i,
            {
                v.push(read_u32(bytes, l.start + 4 * i as i128));
                assert(v@ =~= u32_list(bytes@, l.span()).take(i + 1));
                i = i + 1;
            }
            assert(v@ =~= u32_list(bytes@, l.span()));
            Ok(Some(v))
        },
        None => Ok(None),
    }
}

fn read_i64_list(bytes: &[u8], t: i128, k: u16) -> (r: Result<Option<Vec<i64>>, ()>)
    requires
        near(t as int),
        k < 0x100,
    ensures
        match r {
            Ok(list) => i64_list_is(bytes@, span_field(bytes@, t as int, k as int, 8), list),
            Err(_) => span_field(bytes@, t as int, k as int, 8) is None,
        },
{
    match find_list(bytes, t, k, 8)? {
        Some(l) => {
            let mut v: Vec<i64> = Vec::new();
            let mut i: u32 = 0;
            while i < l.count
                invariant
                    i <= l.count,
                    bytes@.len() <= usize::MAX,
                    inside(bytes@, l.start as int, 8 * l.count),
                    v@ == i64_list(bytes@, l.span()).take(i as int),
                decreases l.count - i,
            {
                v.push(read_i64(bytes, l.start + 8 * i as i128));
                assert(v@ =~= i64_list(bytes@, l.span()).take(i + 1));
                i = i + 1;
            }
            assert(v@ =~= i64_list(bytes@, l.span()));
            Ok(Some(v))
        },
        None => Ok(None),
    }
}

/// The quantization table at `t` can be read.
pub open spec fn quantization_ok(b: Seq<u8>, t: int) -> bool {
    span_field(b, t, 2, 4) is Some && span_field(b, t, 3, 8) is Some
}

/// The quantization table at `t`.
pub open spec fn quantization_is(b: Seq<u8>, t: int, q: Quantization) -> bool {
    &&& u32_list_is(b, span_field(b, t, 2, 4), q.scale)
    &&& i64_list_is(b, span_field(b, t, 3, 8), q.zero_point)
}

fn read_quantization(bytes: &[u8], t: i128) -> (r: Result<Quantization, ()>)
    requires
        near(t as int),
    ensures
        match r {
            Ok(q) => quantization_ok(bytes@, t as int) && quantization_is(bytes@, t as int, q),
            Err(_) => !quantization_ok(bytes@, t as int),
        },
{
    let scale = read_u32_list(bytes, t, 2)?;
    let zero_point = read_i64_list(bytes, t, 3)?;
    Ok(Quantization { scale, zero_point })
}

/// The tensor table at `t` can be read.
pub open spec fn tensor_ok(b: Seq<u8>, t: int) -> bool {
    &&& span_field(b, t, 0, 4) is Some
    &&& i8_field(b, t, 1, 0) is Some
    &&& u32_field(b, t, 2, 0) is Some
    &&& match slot(b, t, 4) {
        Slot::Broken => false,
        Slot::Absent => true,
        Slot::At(f) => match target(b, f) {
            Some(q) => quantization_ok(b, q),
            None => false,
        },
    }
}

/// The tensor table at `t`.
pub open spec fn tensor_is(b: Seq<u8>, t: int, tensor: Tensor) -> bool {
    &&& i32_list_is(b, span_field(b, t, 0, 4), tensor.shape)
    &&& i8_field(b, t, 1, 0) == Some(tensor.tensor_type)
    &&& u32_field(b, t, 2, 0) == Some(tensor.buffer)
    &&& match (slot(b, t, 4), tensor.quantization) {
        (Slot::At(f), Some(q)) => target(b, f) is Some && quantization_is(b, target(b, f)->0, q),
        (Slot::Absent, None) => true,
        _ => false,
    }
}

fn read_tensor(bytes: &[u8], t: i128) -> (r: Result<Tensor, ()>)
    requires
        near(t as int),
    ensures
        match r {
            Ok(tensor) => tensor_ok(bytes@, t as int) && tensor_is(bytes@, t as int, tensor),
            Err(_) => !tensor_ok(bytes@, t as int),
        },
{
    let shape = read_i32_list(bytes, t, 0)?;
    let tensor_type: i8 = read_i8_field(bytes, t, 1, 0)?;
    let buffer: u32 = read_u32_field(bytes, t, 2, 0)?;
    let quantization = match find(bytes, t, 4)? {
        Some(f) => {
            let q: i128 = follow(bytes, f)?;
            let quantization = read_quantization(bytes, q)?;
            Some(quantization)
        },
        None => None,
    };
    Ok(Tensor { shape, tensor_type, buffer, quantization })
}

/// Every table of the vector can be read.
pub open spec fn tensors_ok(b: Seq<u8>, s: Span) -> bool {
    forall|i: int| 0 <= i < s.count ==> tensor_ok(b, #[trigger] table_at(b, s, i))
}

/// The tensors are those of the field.
pub open spec fn tensors_are(
    b: Seq<u8>,
    field: Option<Option<Span>>,
    list: Option<Vec<Tensor>>,
) -> bool {
    match (field, list) {
        (Some(Some(s)), Some(v)) => {
            &&& v@.len() == s.count
            &&& forall|i: int| 0 <= i < s.count ==> tensor_is(b, table_at(b, s, i), #[trigger] v@[i])
        },
        (Some(None), None) => true,
        _ => false,
    }
}

/// The field can be read, and every table that it leads to.
pub open spec fn tensors_field_ok(b: Seq<u8>, t: int, k: int) -> bool {
    match span_field(b, t, k, 4) {
        Some(Some(s)) => tensors_ok(b, s),
        Some(None) => true,
        None => false,
    }
}

fn read_tensors(bytes: &[u8], t: i128, k: u16) -> (r: Result<Option<Vec<Tensor>>, ()>)
    requires
        near(t as int),
        k < 0x100,
    ensures
        match r {
            Ok(list) => {
                &&& tensors_field_ok(bytes@, t as int, k as int)
                &&& tensors_are(bytes@, span_field(bytes@, t as int, k as int, 4), list)
            },
            Err(_) => !tensors_field_ok(bytes@, t as int, k as int),
        },
{
    match find_list(bytes, t, k, 4)? {
        Some(l) => {
            let ghost s = l.span();
            let mut v: Vec<Tensor> = Vec::new();
            let mut i: u32 = 0;
            #[verifier::loop_isolation(false)]
            while i < l.count
                invariant
                    i <= l.count,
                    v@.len() == i,
                    forall|j: int|
                        0 <= j < i ==> tensor_ok(bytes@, #[trigger] table_at(bytes@, s, j)),
                    forall|j: int|
                        0 <= j < i ==> tensor_is(bytes@, table_at(bytes@, s, j), #[trigger] v@[j]),
                decreases l.count - i,
            {
                let p: i128 = l.start + 4 * i as i128;
                let q: i128 = p + read_u32(bytes, p) as i128;
                assert(q == table_at(bytes@, s, i as int));
                let item = read_tensor(bytes, q)?;
                v.push(item);
                i = i + 1;
            }
            Ok(Some(v))
        },
        None => Ok(None),
    }
}

/// The buffer table at `t` can be read.
pub open spec fn buffer_ok(b: Seq<u8>, t: int) -> bool {
    span_field(b, t, 0, 1) is Some
}

/// The buffer table at `t`.
pub open spec fn buffer_is(b: Seq<u8>, t: int, buffer: Buffer) -> bool {
    u8_list_is(b, span_field(b, t, 0, 1), buffer.data)
}

fn read_buffer(bytes: &[u8], t: i128) -> (r: Result<Buffer, ()>)
    requires
        near(t as int),
    ensures
        match r {
            Ok(buffer) => buffer_ok(bytes@, t as int) && buffer_is(bytes@, t as int, buffer),
            Err(_) => !buffer_ok(bytes@, t as int),
        },
{
    let data = read_u8_list(bytes, t, 0)?;
    Ok(Buffer { data })
}

/// Every table of the vector can be read.
pub open spec fn buffers_ok(b: Seq<u8>, s: Span) -> bool {
    forall|i: int| 0 <= i < s.count ==> buffer_ok(b, #[trigger] table_at(b, s, i))
}

/// The buffers are those of the field.
pub open spec fn buffers_are(
    b: Seq<u8>,
    field: Option<Option<Span>>,
    list: Option<Vec<Buffer>>,
) -> bool {
    match (field, list) {
        (Some(Some(s)), Some(v)) => {
            &&& v@.len() == s.count
            &&& forall|i: int| 0 <= i < s.count ==> buffer_is(b, table_at(b, s, i), #[trigger] v@[i])
        },
        (Some(None), None) => true,
        _ => false,
    }
}

/// The field can be read, and every table that it leads to.
pub open spec fn buffers_field_ok(b: Seq<u8>, t: int, k: int) -> bool {
    match span_field(b, t, k, 4) {
        Some(Some(s)) => buffers_ok(b, s),
        Some(None) => true,
        None => false,
    }
}

fn read_buffers(bytes: &[u8], t: i128, k: u16) -> (r: Result<Option<Vec<Buffer>>, ()>)
    requires
        near(t as int),
        k < 0x100,
    ensures
        match r {
            Ok(list) => {
                &&& buffers_field_ok(bytes@, t as int, k as int)
                &&& buffers_are(bytes@, span_field(bytes@, t as int, k as int, 4), list)
            },
            Err(_) => !buffers_field_ok(bytes@, t as int, k as int),
        },
{
    match find_list(bytes, t, k, 4)? {
        Some(l) => {
            let ghost s = l.span();
            let mut v: Vec<Buffer> = Vec::new();
            let mut i: u32 = 0;
            #[verifier::loop_isolation(false)]
            while i < l.count
                invariant
                    i <= l.count,
                    v@.len() == i,
                    forall|j: int|
                        0 <= j < i ==> buffer_ok(bytes@, #[trigger] table_at(bytes@, s, j)),
                    forall|j: int|
                        0 <= j < i ==> buffer_is(bytes@, table_at(bytes@, s, j), #[trigger] v@[j]),
                decreases l.count - i,
            {
                let p: i128 = l.start + 4 * i as i128;
                let q: i128 = p + read_u32(bytes, p) as i128;
                assert(q == table_at(bytes@, s, i as int));
                let item = read_buffer(bytes, q)?;
                v.push(item);
                i = i + 1;
            }
            Ok(Some(v))
        },
        None => Ok(None),
    }
}

/// The operator code table at `t` can be read.
pub open spec fn code_ok(b: Seq<u8>, t: int) -> bool {
    i8_field(b, t, 0, 0) is Some && i32_field(b, t, 3, 0) is Some
}

/// The operator code table at `t`.
pub open spec fn code_is(b: Seq<u8>, t: int, code: OperatorCode) -> bool {
    &&& i8_field(b, t, 0, 0) == Some(code.deprecated_builtin_code)
    &&& i32_field(b, t, 3, 0) == Some(code.builtin_code)
}

fn read_code(bytes: &[u8], t: i128) -> (r: Result<OperatorCode, ()>)
    requires
        near(t as int),
    ensures
        match r {
            Ok(code) => code_ok(bytes@, t as int) && code_is(bytes@, t as int, code),
            Err(_) => !code_ok(bytes@, t as int),
        },
{
    let deprecated_builtin_code: i8 = read_i8_field(bytes, t, 0, 0)?;
    let builtin_code: i32 = read_i32_field(bytes, t, 3, 0)?;
    Ok(OperatorCode { deprecated_builtin_code, builtin_code })
}

/// Every table of the vector can be read.
pub open spec fn codes_ok(b: Seq<u8>, s: Span) -> bool {
    forall|i: int| 0 <= i < s.count ==> code_ok(b, #[trigger] table_at(b, s, i))
}

/// The operator codes are those of the field.
pub open spec fn codes_are(
    b: Seq<u8>,
    field: Option<Option<Span>>,
    list: Option<Vec<OperatorCode>>,
) -> bool {
    match (field, list) {
        (Some(Some(s)), Some(v)) => {
            &&& v@.len() == s.count
            &&& forall|i: int| 0 <= i < s.count ==> code_is(b, table_at(b, s, i), #[trigger] v@[i])
        },
        (Some(None), None) => true,
        _ => false,
    }
}

/// The field can be read, and every table that it leads to.
pub open spec fn codes_field_ok(b: Seq<u8>, t: int, k: int) -> bool {
    match span_field(b, t, k, 4) {
        Some(Some(s)) => codes_ok(b, s),
        Some(None) => true,
        None => false,
    }
}

fn read_codes(bytes: &[u8], t: i128, k: u16) -> (r: Result<Option<Vec<OperatorCode>>, ()>)
    requires
        near(t as int),
        k < 0x100,
    ensures
        match r {
            Ok(list) => {
                &&& codes_field_ok(bytes@, t as int, k as int)
                &&& codes_are(bytes@, span_field(bytes@, t as int, k as int, 4), list)
            },
            Err(_) => !codes_field_ok(bytes@, t as int, k as int),
        },
{
    match find_list(bytes, t, k, 4)? {
        Some(l) => {
            let ghost s = l.span();
            let mut v: Vec<OperatorCode> = Vec::new();
            let mut i: u32 = 0;
            #[verifier::loop_isolation(false)]
            while i < l.count
                invariant
                    i <= l.count,
                    v@.len() == i,
                    forall|j: int|
                        0 <= j < i ==> code_ok(bytes@, #[trigger] table_at(bytes@, s, j)),
                    forall|j: int|
                        0 <= j < i ==> code_is(bytes@, table_at(bytes@, s, j), #[trigger] v@[j]),
                decreases l.count - i,
            {
                let p: i128 = l.start + 4 * i as i128;
                let q: i128 = p + read_u32(bytes, p) as i128;
                assert(q == table_at(bytes@, s, i as int));
                let item = read_code(bytes, q)?;
                v.push(item);
                i = i + 1;
            }
            Ok(Some(v))
        },
        None => Ok(None),
    }
}

/// The kind of options of a 2D convolution.
pub const CONV_2D_OPTIONS: u8 = 1;

/// The kind of options of a depthwise 2D convolution.
pub const DEPTHWISE_CONV_2D_OPTIONS: u8 = 2;

/// The kind of options of a pooling operation.
pub const POOL_2D_OPTIONS: u8 = 5;

/// The kind of options of a fully-connected layer.
pub const FULLY_CONNECTED_OPTIONS: u8 = 8;

/// The kind of options of softmax.
pub const SOFTMAX_OPTIONS: u8 = 9;

/// The kind of options of an element-wise addition.
pub const ADD_OPTIONS: u8 = 11;

/// The options table at `t`, of the given kind, can be read.
pub open spec fn options_table_ok(b: Seq<u8>, t: int, kind: u8) -> bool {
    if kind == CONV_2D_OPTIONS {
        &&& i8_field(b, t, 0, 0) is Some
        &&& i32_field(b, t, 1, 0) is Some
        &&& i32_field(b, t, 2, 0) is Some
        &&& i8_field(b, t, 3, 0) is Some
        &&& i32_field(b, t, 4, 1) is Some
        &&& i32_field(b, t, 5, 1) is Some
    } else if kind == DEPTHWISE_CONV_2D_OPTIONS {
        &&& i8_field(b, t, 0, 0) is Some
        &&& i32_field(b, t, 1, 0) is Some
        &&& i32_field(b, t, 2, 0) is Some
        &&& i32_field(b, t, 3, 0) is Some
        &&& i8_field(b, t, 4, 0) is Some
        &&& i32_field(b, t, 5, 1) is Some
        &&& i32_field(b, t, 6, 1) is Some
    } else if kind == POOL_2D_OPTIONS {
        &&& i8_field(b, t, 0, 0) is Some
        &&& i32_field(b, t, 1, 0) is Some
        &&& i32_field(b, t, 2, 0) is Some
        &&& i32_field(b, t, 3, 0) is Some
        &&& i32_field(b, t, 4, 0) is Some
        &&& i8_field(b, t, 5, 0) is Some
    } else if kind == SOFTMAX_OPTIONS {
        u32_field(b, t, 0, 0) is Some
    } else if kind == FULLY_CONNECTED_OPTIONS || kind == ADD_OPTIONS {
        i8_field(b, t, 0, 0) is Some
    } else {
        true
    }
}

/// The options table at `t`, of the given kind.
pub open spec fn options_table(b: Seq<u8>, t: int, kind: u8) -> Options {
    if kind == CONV_2D_OPTIONS {
        Options::Conv2d {
            padding: i8_field(b, t, 0, 0)->0,
            stride_w: i32_field(b, t, 1, 0)->0,
            stride_h: i32_field(b, t, 2, 0)->0,
            activation: i8_field(b, t, 3, 0)->0,
            dilation_w_factor: i32_field(b, t, 4, 1)->0,
            dilation_h_factor: i32_field(b, t, 5, 1)->0,
        }
    } else if kind == DEPTHWISE_CONV_2D_OPTIONS {
        Options::DepthwiseConv2d {
            padding: i8_field(b, t, 0, 0)->0,
            stride_w: i32_field(b, t, 1, 0)->0,
            stride_h: i32_field(b, t, 2, 0)->0,
            depth_multiplier: i32_field(b, t, 3, 0)->0,
            activation: i8_field(b, t, 4, 0)->0,
            dilation_w_factor: i32_field(b, t, 5, 1)->0,
            dilation_h_factor: i32_field(b, t, 6, 1)->0,
        }
    } else if kind == POOL_2D_OPTIONS {
        Options::Pool2d {
            padding: i8_field(b, t, 0, 0)->0,
            stride_w: i32_field(b, t, 1, 0)->0,
            stride_h: i32_field(b, t, 2, 0)->0,
            filter_width: i32_field(b, t, 3, 0)->0,
            filter_height: i32_field(b, t, 4, 0)->0,
            activation: i8_field(b, t, 5, 0)->0,
        }
    } else if kind == FULLY_CONNECTED_OPTIONS {
        Options::FullyConnected { activation: i8_field(b, t, 0, 0)->0 }
    } else if kind == SOFTMAX_OPTIONS {
        Options::Softmax { beta: u32_field(b, t, 0, 0)->0 }
    } else if kind == ADD_OPTIONS {
        Options::Add { activation: i8_field(b, t, 0, 0)->0 }
    } else {
        Options::Other
    }
}

fn read_options_table(bytes: &[u8], t: i128, kind: u8) -> (r: Result<Options, ()>)
    requires
        near(t as int),
    ensures
        match r {
            Ok(options) => {
                &&& options_table_ok(bytes@, t as int, kind)
                &&& options == options_table(bytes@, t as int, kind)
            },
            Err(_) => !options_table_ok(bytes@, t as int, kind),
        },
{
    if kind == CONV_2D_OPTIONS {
        let padding: i8 = read_i8_field(bytes, t, 0, 0)?;
        let stride_w: i32 = read_i32_field(bytes, t, 1, 0)?;
        let stride_h: i32 = read_i32_field(bytes, t, 2, 0)?;
        let activation: i8 = read_i8_field(bytes, t, 3, 0)?;
        let dilation_w_factor: i32 = read_i32_field(bytes, t, 4, 1)?;
        let dilation_h_factor: i32 = read_i32_field(bytes, t, 5, 1)?;
        Ok(
            Options::Conv2d {
                padding,
                stride_w,
                stride_h,
                activation,
                dilation_w_factor,
                dilation_h_factor,
            },
        )
    } else if kind == DEPTHWISE_CONV_2D_OPTIONS {
        let padding: i8 = read_i8_field(bytes, t, 0, 0)?;
        let stride_w: i32 = read_i32_field(bytes, t, 1, 0)?;
        let stride_h: i32 = read_i32_field(bytes, t, 2, 0)?;
        let depth_multiplier: i32 = read_i32_field(bytes, t, 3, 0)?;
        let activation: i8 = read_i8_field(bytes, t, 4, 0)?;
        let dilation_w_factor: i32 = read_i32_field(bytes, t, 5, 1)?;
        let dilation_h_factor: i32 = read_i32_field(bytes, t, 6, 1)?;
        Ok(
            Options::DepthwiseConv2d {
                padding,
                stride_w,
                stride_h,
                depth_multiplier,
                activation,
                dilation_w_factor,
                dilation_h_factor,
            },
        )
    } else if kind == POOL_2D_OPTIONS {
        let padding: i8 = read_i8_field(bytes, t, 0, 0)?;
        let stride_w: i32 = read_i32_field(bytes, t, 1, 0)?;
        let stride_h: i32 = read_i32_field(bytes, t, 2, 0)?;
        let filter_width: i32 = read_i32_field(bytes, t, 3, 0)?;
        let filter_height: i32 = read_i32_field(bytes, t, 4, 0)?;
        let activation: i8 = read_i8_field(bytes, t, 5, 0)?;
        Ok(
            Options::Pool2d {
                padding,
                stride_w,
                stride_h,
                filter_width,
                filter_height,
                activation,
            },
        )
    } else if kind == FULLY_CONNECTED_OPTIONS {
        let activation: i8 = read_i8_field(bytes, t, 0, 0)?;
        Ok(Options::FullyConnected { activation })
    } else if kind == SOFTMAX_OPTIONS {
        let beta: u32 = read_u32_field(bytes, t, 0, 0)?;
        Ok(Options::Softmax { beta })
    } else if kind == ADD_OPTIONS {
        let activation: i8 = read_i8_field(bytes, t, 0, 0)?;
        Ok(Options::Add { activation })
    } else {
        Ok(Options::Other)
    }
}

/// The options of the operator table at `t` can be read.
pub open spec fn options_ok(b: Seq<u8>, t: int) -> bool {
    &&& u8_field(b, t, 3, 0) is Some
    &&& match slot(b, t, 4) {
        Slot::Broken => false,
        Slot::Absent => true,
        Slot::At(f) => match target(b, f) {
            Some(q) => options_table_ok(b, q, u8_field(b, t, 3, 0)->0),
            None => false,
        },
    }
}

/// The options of the operator table at `t`.
pub open spec fn options_at(b: Seq<u8>, t: int) -> Options {
    match slot(b, t, 4) {
        Slot::At(f) => options_table(b, target(b, f)->0, u8_field(b, t, 3, 0)->0),
        _ => Options::Other,
    }
}

fn read_options(bytes: &[u8], t: i128) -> (r: Result<Options, ()>)
    requires
        near(t as int),
    ensures
        match r {
            Ok(options) => options_ok(bytes@, t as int) && options == options_at(bytes@, t as int),
            Err(_) => !options_ok(bytes@, t as int),
        },
{
    let kind: u8 = read_u8_field(bytes, t, 3, 0)?;
    match find(bytes, t, 4)? {
        Some(f) => {
            let q: i128 = follow(bytes, f)?;
            read_options_table(bytes, q, kind)
        },
        None => Ok(Options::Other),
    }
}

/// The operator table at `t` can be read.
pub open spec fn operator_ok(b: Seq<u8>, t: int) -> bool {
    &&& u32_field(b, t, 0, 0) is Some
    &&& span_field(b, t, 1, 4) is Some
    &&& span_field(b, t, 2, 4) is Some
    &&& options_ok(b, t)
}

/// The operator table at `t`.
pub open spec fn operator_is(b: Seq<u8>, t: int, operator: Operator) -> bool {
    &&& u32_field(b, t, 0, 0) == Some(operator.opcode_index)
    &&& i32_list_is(b, span_field(b, t, 1, 4), operator.inputs)
    &&& i32_list_is(b, span_field(b, t, 2, 4), operator.outputs)
    &&& operator.options == options_at(b, t)
}

fn read_operator(bytes: &[u8], t: i128) -> (r: Result<Operator, ()>)
    requires
        near(t as int),
    ensures
        match r {
            Ok(operator) => operator_ok(bytes@, t as int) && operator_is(
                bytes@,
                t as int,
                operator,
            ),
            Err(_) => !operator_ok(bytes@, t as int),
        },
{
    let opcode_index: u32 = read_u32_field(bytes, t, 0, 0)?;
    let inputs = read_i32_list(bytes, t, 1)?;
    let outputs = read_i32_list(bytes, t, 2)?;
    let options = read_options(bytes, t)?;
    Ok(Operator { opcode_index, inputs, outputs, options })
}

/// Every table of the vector can be read.
pub open spec fn operators_ok(b: Seq<u8>, s: Span) -> bool {
    forall|i: int| 0 <= i < s.count ==> operator_ok(b, #[trigger] table_at(b, s, i))
}

/// The operators are those of the field.
pub open spec fn operators_are(
    b: Seq<u8>,
    field: Option<Option<Span>>,
    list: Option<Vec<Operator>>,
) -> bool {
    match (field, list) {
        (Some(Some(s)), Some(v)) => {
            &&& v@.len() == s.count
            &&& forall|i: int| 0 <= i < s.count ==> operator_is(b, table_at(b, s, i), #[trigger] v@[i])
        },
        (Some(None), None) => true,
        _ => false,
    }
}

/// The field can be read, and every table that it leads to.
pub open spec fn operators_field_ok(b: Seq<u8>, t: int, k: int) -> bool {
    match span_field(b, t, k, 4) {
        Some(Some(s)) => operators_ok(b, s),
        Some(None) => true,
        None => false,
    }
}

fn read_operators(bytes: &[u8], t: i128, k: u16) -> (r: Result<Option<Vec<Operator>>, ()>)
    requires
        near(t as int),
        k < 0x100,
    ensures
        match r {
            Ok(list) => {
                &&& operators_field_ok(bytes@, t as int, k as int)
                &&& operators_are(bytes@, span_field(bytes@, t as int, k as int, 4), list)
            },
            Err(_) => !operators_field_ok(bytes@, t as int, k as int),
        },
{
    match find_list(bytes, t, k, 4)? {
        Some(l) => {
            let ghost s = l.span();
            let mut v: Vec<Operator> = Vec::new();
            let mut i: u32 = 0;
            #[verifier::loop_isolation(false)]
            while i < l.count
                invariant
                    i <= l.count,
                    v@.len() == i,
                    forall|j: int|
                        0 <= j < i ==> operator_ok(bytes@, #[trigger] table_at(bytes@, s, j)),
                    forall|j: int|
                        0 <= j < i ==> operator_is(bytes@, table_at(bytes@, s, j), #[trigger] v@[j]),
                decreases l.count - i,
            {
                let p: i128 = l.start + 4 * i as i128;
                let q: i128 = p + read_u32(bytes, p) as i128;
                assert(q == table_at(bytes@, s, i as int));
                let item = read_operator(bytes, q)?;
                v.push(item);
                i = i + 1;
            }
            Ok(Some(v))
        },
        None => Ok(None),
    }
}

/// The graph table at `t` can be read.
pub open spec fn graph_ok(b: Seq<u8>, t: int) -> bool {
    &&& tensors_field_ok(b, t, 0)
    &&& span_field(b, t, 1, 4) is Some
    &&& span_field(b, t, 2, 4) is Some
    &&& operators_field_ok(b, t, 3)
}

/// The graph table at `t`.
pub open spec fn graph_is(b: Seq<u8>, t: int, graph: SubGraph) -> bool {
    &&& tensors_are(b, span_field(b, t, 0, 4), graph.tensors)
    &&& i32_list_is(b, span_field(b, t, 1, 4), graph.inputs)
    &&& i32_list_is(b, span_field(b, t, 2, 4), graph.outputs)
    &&& operators_are(b, span_field(b, t, 3, 4), graph.operators)
}

fn read_graph(bytes: &[u8], t: i128) -> (r: Result<SubGraph, ()>)
    requires
        near(t as int),
    ensures
        match r {
            Ok(graph) => graph_ok(bytes@, t as int) && graph_is(bytes@, t as int, graph),
            Err(_) => !graph_ok(bytes@, t as int),
        },
{
    let tensors = read_tensors(bytes, t, 0)?;
    let inputs = read_i32_list(bytes, t, 1)?;
    let outputs = read_i32_list(bytes, t, 2)?;
    let operators = read_operators(bytes, t, 3)?;
    Ok(SubGraph { tensors, inputs, outputs, operators })
}

/// Every table of the vector can be read.
pub open spec fn graphs_ok(b: Seq<u8>, s: Span) -> bool {
    forall|i: int| 0 <= i < s.count ==> graph_ok(b, #[trigger] table_at(b, s, i))
}

/// The graphs are those of the field.
pub open spec fn graphs_are(
    b: Seq<u8>,
    field: Option<Option<Span>>,
    list: Option<Vec<SubGraph>>,
) -> bool {
    match (field, list) {
        (Some(Some(s)), Some(v)) => {
            &&& v@.len() == s.count
            &&& forall|i: int| 0 <= i < s.count ==> graph_is(b, table_at(b, s, i), #[trigger] v@[i])
        },
        (Some(None), None) => true,
        _ => false,
    }
}

/// The field can be read, and every table that it leads to.
pub open spec fn graphs_field_ok(b: Seq<u8>, t: int, k: int) -> bool {
    match span_field(b, t, k, 4) {
        Some(Some(s)) => graphs_ok(b, s),
        Some(None) => true,
        None => false,
    }
}

fn read_graphs(bytes: &[u8], t: i128, k: u16) -> (r: Result<Option<Vec<SubGraph>>, ()>)
    requires
        near(t as int),
        k < 0x100,
    ensures
        match r {
            Ok(list) => {
                &&& graphs_field_ok(bytes@, t as int, k as int)
                &&& graphs_are(bytes@, span_field(bytes@, t as int, k as int, 4), list)
            },
            Err(_) => !graphs_field_ok(bytes@, t as int, k as int),
        },
{
    match find_list(bytes, t, k, 4)? {
        Some(l) => {
            let ghost s = l.span();
            let mut v: Vec<SubGraph> = Vec::new();
            let mut i: u32 = 0;
            #[verifier::loop_isolation(false)]
            while i < l.count
                invariant
                    i <= l.count,
                    v@.len() == i,
                    forall|j: int|
                        0 <= j < i ==> graph_ok(bytes@, #[trigger] table_at(bytes@, s, j)),
                    forall|j: int|
                        0 <= j < i ==> graph_is(bytes@, table_at(bytes@, s, j), #[trigger] v@[j]),
                decreases l.count - i,
            {
                let p: i128 = l.start + 4 * i as i128;
                let q: i128 = p + read_u32(bytes, p) as i128;
                assert(q == table_at(bytes@, s, i as int));
                let item = read_graph(bytes, q)?;
                v.push(item);
                i = i + 1;
            }
            Ok(Some(v))
        },
        None => Ok(None),
    }
}

/// The file holds the tables of a model.
pub open spec fn model_ok(b: Seq<u8>) -> bool {
    match target(b, 0) {
        Some(t) => codes_field_ok(b, t, 1) && graphs_field_ok(b, t, 2) && buffers_field_ok(b, t, 4),
        None => false,
    }
}

/// The tables of the model that the file holds.
pub open spec fn model_is(b: Seq<u8>, model: Model) -> bool {
    &&& target(b, 0) matches Some(t)
    &&& codes_are(b, span_field(b, t, 1, 4), model.operator_codes)
    &&& graphs_are(b, span_field(b, t, 2, 4), model.subgraphs)
    &&& buffers_are(b, span_field(b, t, 4, 4), model.buffers)
}

/// Reads the tables of a model from the bytes of a file.
///
/// `well_formed` is the verdict of the flatbuffers verifier on the file. It is `None`
/// where that verdict is against the file, or a table leads outside it.
pub fn read_model(bytes: &[u8], well_formed: bool) -> (r: Option<Model>)
    ensures
        match r {
            Some(model) => well_formed && model_ok(bytes@) && model_is(bytes@, model),
            None => !(well_formed && model_ok(bytes@)),
        },
{
    if !well_formed {
        return None;
    }
    match read_root(bytes) {
        Ok(model) => Some(model),
        Err(_) => None,
    }
}

fn read_root(bytes: &[u8]) -> (r: Result<Model, ()>)
    ensures
        match r {
            Ok(model) => model_ok(bytes@) && model_is(bytes@, model),
            Err(_) => !model_ok(bytes@),
        },
{
    let t: i128 = follow(bytes, 0)?;
    let operator_codes = read_codes(bytes, t, 1)?;
    let subgraphs = read_graphs(bytes, t, 2)?;
    let buffers = read_buffers(bytes, t, 4)?;
    Ok(Model { operator_codes, subgraphs, buffers })
}

} // verus!
