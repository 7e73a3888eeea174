//! What is read of the tables of a tensor.
use crate::laws::acceptance;
use crate::laws::model as tables;
use crate::model;
use crate::model::{Buffer, ModelError, Role, Tensor, TensorInfo};
use crate::shape;
use vstd::prelude::*;

verus! {

/// A tensor is read where it has a shape and a quantization: with its dimensions, to
/// which a vector adds a first one of 1, its first scale and zero point, or one and zero,
/// and its type.
pub proof fn law_tensor_info(t: Tensor, r: Result<TensorInfo, ModelError>)
    requires
        call_ensures(model::tensor_info, (&t,), r),
    ensures
        r is Ok <==> t.shape is Some && t.quantization is Some,
        r matches Err(e) ==> e == ModelError::Malformed,
        r matches Ok(info) ==> ({
            let dims = t.shape->0@;
            &&& info.scale == tables::quant(t).scale
            &&& info.zero_point == tables::quant(t).zero_point
            &&& info.tensor_type == t.tensor_type
            &&& if dims.len() == 1 {
                info.shape@ =~= seq![1usize, dims[0] as usize]
            } else {
                info.shape@ =~= Seq::new(dims.len(), |i: int| dims[i] as usize)
            }
        }),
{
}

/// The number of elements of a tensor is the product of its dimensions, where each step
/// of it can be counted.
pub proof fn law_tensor_len(
    t: Tensor,
    info: TensorInfo,
    r: Result<usize, ModelError>,
)
    requires
        call_ensures(model::tensor_info, (&t,), Ok(info)),
        call_ensures(model::tensor_len, (&info,), r),
    ensures
        r is Ok <==> acceptance::is_countable(t),
        r matches Ok(n) ==> n == tables::element_count(t),
        r matches Err(e) ==> e == ModelError::Malformed,
{
    acceptance::lemma_countable(t);
    model::lemma_full_shape(t.shape->0@);
    tables::lemma_product(t.shape->0@, t.shape->0@.len() as int);
}

/// INT8 tensors pass, and others are refused with their type and the part they play.
pub proof fn law_require_i8(info: TensorInfo, role: Role, r: Result<(), ModelError>)
    requires
        call_ensures(model::require_i8, (&info, role), r),
    ensures
        r is Ok <==> info.tensor_type == 9,
        r matches Err(e) ==> e == (ModelError::NotInt8 { role, tensor_type: info.tensor_type }),
{
}

/// The elements of a constant INT8 tensor are the bytes of its buffer, as signed numbers.
pub proof fn law_tensor_i8_data(t: Tensor, buffers: Vec<Buffer>, r: Result<Vec<i8>, ModelError>)
    requires
        call_ensures(model::tensor_i8_data, (&t, &buffers), r),
    ensures
        r is Ok <==> t.tensor_type == 9 && t.buffer < buffers@.len(),
        r matches Ok(v) ==> tables::are_signed(
            v@,
            match buffers@[t.buffer as int].data {
                Some(bytes) => bytes@,
                None => Seq::empty(),
            },
        ),
        r matches Err(e) ==> e == (if t.tensor_type != 9 {
            ModelError::NotInt8 { role: Role::Constant, tensor_type: t.tensor_type }
        } else {
            ModelError::Malformed
        }),
{
}

/// The elements of a constant tensor of 32-bit integers are the words of its buffer, the
/// least significant byte first.
pub proof fn law_tensor_i32_data(t: Tensor, buffers: Vec<Buffer>, r: Result<Vec<i32>, ModelError>)
    requires
        call_ensures(model::tensor_i32_data, (&t, &buffers), r),
    ensures
        r is Ok <==> t.buffer < buffers@.len(),
        r matches Ok(v) ==> tables::are_words(
            v@,
            match buffers@[t.buffer as int].data {
                Some(bytes) => bytes@,
                None => Seq::empty(),
            },
        ),
        r matches Err(e) ==> e == ModelError::Malformed,
{
    if r is Ok {
        tables::lemma_words(
            match buffers@[t.buffer as int].data {
                Some(bytes) => bytes@,
                None => Seq::empty(),
            },
        );
    }
}

/// A matrix has two dimensions, and an image four.
pub proof fn law_shapes(
    info: TensorInfo,
    role: Role,
    matrix: Result<[usize; 2], ModelError>,
    image: Result<[usize; 4], ModelError>,
)
    requires
        call_ensures(model::shape2, (&info, role), matrix),
        call_ensures(model::shape4, (&info, role), image),
    ensures
        matrix is Ok <==> info.shape@.len() == 2,
        image is Ok <==> info.shape@.len() == 4,
        matrix matches Ok(s) ==> s@ == info.shape@,
        image matches Ok(s) ==> s@ == info.shape@,
        matrix matches Err(e) ==> e matches ModelError::WrongRank { role: part, rank, shape }
            && part == role && rank == 2 && shape@ == info.shape@,
        image matches Err(e) ==> e matches ModelError::WrongRank { role: part, rank, shape }
            && part == role && rank == 4 && shape@ == info.shape@,
{
}

} // verus!
