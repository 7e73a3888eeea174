//! The tables of a quantized TensorFlow Lite model, and the tensors they describe.
//!
//! The types hold what the tables of a model file hold; a table or vector that the
//! file leaves out is `None`.
use crate::quantize;
use crate::shape;
use crate::single::ONE_BITS;
use crate::types::QuantParam;
use vstd::prelude::*;

verus! {

/// The code of the tensor type INT8.
pub const TENSOR_TYPE_INT8: i8 = 9;

/// Quantization parameters of a tensor.
pub struct Quantization {
    /// Scales, each as the bits of a single.
    pub scale: Option<Vec<u32>>,
    /// Zero points.
    pub zero_point: Option<Vec<i64>>,
}

/// A tensor.
pub struct Tensor {
    /// Dimensions.
    pub shape: Option<Vec<i32>>,
    /// Code of the element type.
    pub tensor_type: i8,
    /// Number of the buffer that holds the elements of a constant tensor.
    pub buffer: u32,
    /// Quantization parameters.
    pub quantization: Option<Quantization>,
}

/// The contents of constant tensors.
pub struct Buffer {
    /// Raw bytes.
    pub data: Option<Vec<u8>>,
}

/// An operator code.
pub struct OperatorCode {
    /// The code, where it fits in this field.
    pub deprecated_builtin_code: i8,
    /// The code, where the other field holds the escape value.
    pub builtin_code: i32,
}

/// The options of an operator.
pub enum Options {
    /// Options of a 2D convolution.
    Conv2d {
        padding: i8,
        stride_w: i32,
        stride_h: i32,
        activation: i8,
        dilation_w_factor: i32,
        dilation_h_factor: i32,
    },
    /// Options of a depthwise 2D convolution.
    DepthwiseConv2d {
        padding: i8,
        stride_w: i32,
        stride_h: i32,
        depth_multiplier: i32,
        activation: i8,
        dilation_w_factor: i32,
        dilation_h_factor: i32,
    },
    /// Options of a pooling operation.
    Pool2d {
        padding: i8,
        stride_w: i32,
        stride_h: i32,
        filter_width: i32,
        filter_height: i32,
        activation: i8,
    },
    /// Options of a fully-connected layer.
    FullyConnected { activation: i8 },
    /// Options of softmax; `beta` as the bits of a single.
    Softmax { beta: u32 },
    /// Options of an element-wise addition.
    Add { activation: i8 },
    /// No options, or those of another operator.
    Other,
}

/// An operator of a graph.
pub struct Operator {
    /// Number of the operator code.
    pub opcode_index: u32,
    /// Numbers of the input tensors; a negative number stands for none.
    pub inputs: Option<Vec<i32>>,
    /// Numbers of the output tensors.
    pub outputs: Option<Vec<i32>>,
    /// Options.
    pub options: Options,
}

/// A graph of operators.
pub struct SubGraph {
    /// Tensors.
    pub tensors: Option<Vec<Tensor>>,
    /// Numbers of the tensors that the graph is given.
    pub inputs: Option<Vec<i32>>,
    /// Numbers of the tensors that the graph computes.
    pub outputs: Option<Vec<i32>>,
    /// Operators, in the order in which they run.
    pub operators: Option<Vec<Operator>>,
}

/// A model.
pub struct Model {
    /// Operator codes.
    pub operator_codes: Option<Vec<OperatorCode>>,
    /// Graphs; the first one is run.
    pub subgraphs: Option<Vec<SubGraph>>,
    /// Buffers.
    pub buffers: Option<Vec<Buffer>>,
}

/// The part that a tensor plays.
#[derive(Clone, Copy, Debug, PartialEq, Eq, Structural)]
pub enum Role {
    ModelInput,
    ModelOutput,
    Conv2dInput,
    Conv2dWeights,
    Conv2dOutput,
    DepthwiseConv2dInput,
    DepthwiseConv2dWeights,
    DepthwiseConv2dOutput,
    FullyConnectedInput,
    FullyConnectedWeights,
    FullyConnectedOutput,
    PoolInput,
    PoolOutput,
    SoftmaxInput,
    SoftmaxOutput,
    AddInput1,
    AddInput2,
    AddOutput,
    Constant,
}

/// Why a model cannot be run.
#[derive(Debug, PartialEq, Eq)]
pub enum ModelError {
    /// A table or an element that the model refers to is missing, or a tensor has
    /// more elements than can be counted.
    Malformed,
    /// A tensor must hold INT8 elements, and has another type.
    NotInt8 { role: Role, tensor_type: i8 },
    /// A tensor must have `rank` dimensions, and has another number of them.
    WrongRank { role: Role, rank: usize, shape: Vec<usize> },
    /// No kernel runs this operator.
    UnsupportedOperator { operator: i32 },
    /// No kernel fuses this activation function.
    UnsupportedActivation { activation: i8 },
    /// No kernel pads in this way.
    UnsupportedPadding { padding: i8 },
}

/// Why a model cannot be run, with the shape as a sequence.
pub enum Fault {
    Malformed,
    NotInt8 { role: Role, tensor_type: i8 },
    WrongRank { role: Role, rank: usize, shape: Seq<usize> },
    UnsupportedOperator { operator: i32 },
    UnsupportedActivation { activation: i8 },
    UnsupportedPadding { padding: i8 },
}

impl View for ModelError {
    type V = Fault;

    open spec fn view(&self) -> Fault {
        match *self {
            ModelError::Malformed => Fault::Malformed,
            ModelError::NotInt8 { role, tensor_type } => Fault::NotInt8 { role, tensor_type },
            ModelError::WrongRank { role, rank, shape } => Fault::WrongRank {
                role,
                rank,
                shape: shape@,
            },
            ModelError::UnsupportedOperator { operator } => Fault::UnsupportedOperator { operator },
            ModelError::UnsupportedActivation { activation } => Fault::UnsupportedActivation {
                activation,
            },
            ModelError::UnsupportedPadding { padding } => Fault::UnsupportedPadding { padding },
        }
    }
}

/// What is known of a tensor.
pub struct Info {
    pub shape: Seq<usize>,
    pub scale: u32,
    pub zero_point: i32,
    pub tensor_type: i8,
}

/// What is known of a tensor.
pub struct TensorInfo {
    /// Dimensions.
    pub shape: Vec<usize>,
    /// Scale, as the bits of a single.
    pub scale: u32,
    /// Zero point.
    pub zero_point: i32,
    /// Code of the element type.
    pub tensor_type: i8,
}

impl View for TensorInfo {
    type V = Info;

    open spec fn view(&self) -> Info {
        Info {
            shape: self.shape@,
            scale: self.scale,
            zero_point: self.zero_point,
            tensor_type: self.tensor_type,
        }
    }
}

/// The dimensions of a tensor; a vector counts as a matrix of one row.
pub open spec fn full_shape(dims: Seq<i32>) -> Seq<usize> {
    let sizes = Seq::new(dims.len(), |i: int| dims[i] as usize);
    if dims.len() == 1 {
        seq![1usize] + sizes
    } else {
        sizes
    }
}

/// The first element of an optional list.
pub open spec fn first_or<T>(list: Option<Vec<T>>, default: T) -> T {
    match list {
        Some(v) => if v@.len() > 0 {
            v@[0]
        } else {
            default
        },
        None => default,
    }
}

/// What is known of a tensor, if its tables are there.
pub open spec fn info_of(tensor: Tensor) -> Option<Info> {
    match (tensor.shape, tensor.quantization) {
        (Some(dims), Some(quantization)) => Some(
            Info {
                shape: full_shape(dims@),
                scale: first_or(quantization.scale, ONE_BITS),
                zero_point: first_or(quantization.zero_point, 0) as i32,
                tensor_type: tensor.tensor_type,
            },
        ),
        _ => None,
    }
}

/// Reads shape and per-tensor quantization parameters of a tensor.
pub fn tensor_info(tensor: &Tensor) -> (r: Result<TensorInfo, ModelError>)
    ensures
        match r {
            Ok(info) => info_of(*tensor) == Some(info@),
            Err(e) => e@ == Fault::Malformed && info_of(*tensor) is None,
        },
{
    let dims = match &tensor.shape {
        Some(dims) => dims,
        None => {
            return Err(ModelError::Malformed);
        },
    };
    let quantization = match &tensor.quantization {
        Some(quantization) => quantization,
        None => {
            return Err(ModelError::Malformed);
        },
    };
    let mut shape: Vec<usize> = Vec::new();
    if dims.len() == 1 {
        shape.push(1);
    }
    let ghost start = shape@;
    let mut i: usize = 0;
    while i < dims.len()
        invariant
            i <= dims@.len(),
            start.len() <= 1,
            shape@ == start + Seq::new(i as nat, |k: int| dims@[k] as usize),
        decreases dims@.len() - i,
    {
        shape.push(dims[i] as usize);
        i = i + 1;
    }
    let mut scale: u32 = ONE_BITS;
    if let Some(scales) = &quantization.scale {
        if scales.len() > 0 {
            scale = scales[0];
        }
    }
    let mut zero_point: i64 = 0;
    if let Some(zero_points) = &quantization.zero_point {
        if zero_points.len() > 0 {
            zero_point = zero_points[0];
        }
    }
    assert(shape@ =~= full_shape(dims@));
    Ok(TensorInfo { shape, scale, zero_point: zero_point as i32, tensor_type: tensor.tensor_type })
}

impl TensorInfo {
    /// Per-tensor quantization parameters.
    pub fn quant(&self) -> (r: QuantParam)
        ensures
            r == self@.quant(),
    {
        QuantParam { scale: self.scale, zero_point: self.zero_point }
    }
}

impl Info {
    /// Per-tensor quantization parameters.
    pub open spec fn quant(self) -> QuantParam {
        QuantParam { scale: self.scale, zero_point: self.zero_point }
    }

    /// The elements can be counted.
    pub open spec fn countable(self) -> bool {
        shape::product_defined(self.shape)
    }

    /// Number of elements.
    pub open spec fn count(self) -> nat {
        shape::dims_product(self.shape)
    }
}

/// Number of elements of a tensor.
pub fn tensor_len(info: &TensorInfo) -> (r: Result<usize, ModelError>)
    ensures
        match r {
            Ok(n) => info@.countable() && n == info@.count(),
            Err(e) => e@ == Fault::Malformed && !info@.countable(),
        },
{
    let mut n: usize = 1;
    let mut i: usize = 0;
    while i < info.shape.len()
        invariant
            i <= info.shape@.len(),
            n == shape::dims_product(info.shape@.take(i as int)),
            forall|k: int|
                0 <= k <= i ==> #[trigger] shape::dims_product(info.shape@.take(k)) <= usize::MAX,
        decreases info.shape@.len() - i,
    {
        let ghost next = info.shape@.take(i + 1);
        proof {
            assert(next.drop_last() =~= info.shape@.take(i as int));
            assert(shape::dims_product(next) == n as nat * info.shape@[i as int] as nat);
        }
        match n.checked_mul(info.shape[i]) {
            Some(m) => {
                n = m;
            },
            None => {
                assert(shape::dims_product(info.shape@.take(i + 1)) > usize::MAX);
                return Err(ModelError::Malformed);
            },
        }
        i = i + 1;
    }
    assert(info.shape@.take(info.shape@.len() as int) =~= info.shape@);
    Ok(n)
}

/// The error for a tensor that does not hold INT8 elements.
pub open spec fn int8_error(info: Info, role: Role) -> Option<Fault> {
    if info.tensor_type == TENSOR_TYPE_INT8 {
        None
    } else {
        Some(Fault::NotInt8 { role, tensor_type: info.tensor_type })
    }
}

/// Checks that a tensor holds INT8 elements.
pub fn require_i8(info: &TensorInfo, role: Role) -> (r: Result<(), ModelError>)
    ensures
        match r {
            Ok(_) => int8_error(info@, role) is None,
            Err(e) => int8_error(info@, role) == Some(e@),
        },
{
    if info.tensor_type == TENSOR_TYPE_INT8 {
        Ok(())
    } else {
        Err(ModelError::NotInt8 { role, tensor_type: info.tensor_type })
    }
}

/// The bytes of a buffer; none where it holds no data.
pub open spec fn bytes_of(buffer: Buffer) -> Seq<u8> {
    match buffer.data {
        Some(data) => data@,
        None => Seq::empty(),
    }
}

/// The bytes of a buffer; none where it holds no data.
pub fn buffer_data(buffer: &Buffer) -> (r: Vec<u8>)
    ensures
        r@ == bytes_of(*buffer),
{
    let mut r: Vec<u8> = Vec::new();
    if let Some(data) = &buffer.data {
        let mut i: usize = 0;
        while i < data.len()
            invariant
                i <= data@.len(),
                r@ == data@.take(i as int),
            decreases data@.len() - i,
        {
            r.push(data[i]);
            assert(data@.take(i + 1) =~= data@.take(i as int).push(data@[i as int]));
            i = i + 1;
        }
        assert(data@.take(data@.len() as int) =~= data@);
    }
    r
}

/// The signed byte with the bits of `byte`.
pub open spec fn signed_byte(byte: u8) -> i8 {
    if byte < 128 {
        byte as i8
    } else {
        (byte - 256) as i8
    }
}

/// The elements of a buffer of signed bytes.
pub open spec fn i8_elements(bytes: Seq<u8>) -> Seq<i8> {
    Seq::new(bytes.len(), |i: int| signed_byte(bytes[i]))
}

/// The 32-bit integer that four bytes hold, the least significant one first.
pub open spec fn le_i32(bytes: Seq<u8>, i: int) -> i32 {
    quantize::wrap_i32(
        bytes[i] + 0x100 * bytes[i + 1] + 0x1_0000 * bytes[i + 2] + 0x100_0000 * bytes[i + 3],
    ) as i32
}

/// The elements of a buffer of 32-bit integers; what is left of fewer than four
/// bytes is dropped.
pub open spec fn i32_elements(bytes: Seq<u8>) -> Seq<i32> {
    Seq::new(bytes.len() / 4, |i: int| le_i32(bytes, 4 * i))
}

/// The buffer of a tensor, if there is one.
pub open spec fn buffer_of(tensor: Tensor, buffers: Seq<Buffer>) -> Option<Buffer> {
    if tensor.buffer < buffers.len() {
        Some(buffers[tensor.buffer as int])
    } else {
        None
    }
}

/// The elements of a constant INT8 tensor.
pub fn tensor_i8_data(tensor: &Tensor, buffers: &Vec<Buffer>) -> (r: Result<Vec<i8>, ModelError>)
    ensures
        match r {
            Ok(v) => {
                &&& tensor.tensor_type == TENSOR_TYPE_INT8
                &&& buffer_of(*tensor, buffers@) matches Some(b)
                &&& v@ == i8_elements(bytes_of(b))
            },
            Err(e) => if tensor.tensor_type != TENSOR_TYPE_INT8 {
                e@ == (Fault::NotInt8 { role: Role::Constant, tensor_type: tensor.tensor_type })
            } else {
                e@ == Fault::Malformed && buffer_of(*tensor, buffers@) is None
            },
        },
{
    if tensor.tensor_type != TENSOR_TYPE_INT8 {
        return Err(
            ModelError::NotInt8 { role: Role::Constant, tensor_type: tensor.tensor_type },
        );
    }
    if tensor.buffer as usize >= buffers.len() {
        return Err(ModelError::Malformed);
    }
    let data = buffer_data(&buffers[tensor.buffer as usize]);
    let mut r: Vec<i8> = Vec::new();
    let mut i: usize = 0;
    while i < data.len()
        invariant
            i <= data@.len(),
            r@ == i8_elements(data@).take(i as int),
        decreases data@.len() - i,
    {
        let byte: u8 = data[i];
        let element: i8 = if byte < 128 {
            byte as i8
        } else {
            (byte as i16 - 256) as i8
        };
        r.push(element);
        assert(i8_elements(data@).take(i + 1) =~= i8_elements(data@).take(i as int).push(element));
        i = i + 1;
    }
    assert(r@ =~= i8_elements(data@));
    Ok(r)
}

/// The elements of a constant tensor of 32-bit integers.
pub fn tensor_i32_data(tensor: &Tensor, buffers: &Vec<Buffer>) -> (r: Result<Vec<i32>, ModelError>)
    ensures
        match r {
            Ok(v) => {
                &&& buffer_of(*tensor, buffers@) matches Some(b)
                &&& v@ == i32_elements(bytes_of(b))
            },
            Err(e) => e@ == Fault::Malformed && buffer_of(*tensor, buffers@) is None,
        },
{
    if tensor.buffer as usize >= buffers.len() {
        return Err(ModelError::Malformed);
    }
    let data = buffer_data(&buffers[tensor.buffer as usize]);
    let mut r: Vec<i32> = Vec::new();
    let count: usize = data.len() / 4;
    let mut i: usize = 0;
    while i < count
        invariant
            count == data@.len() / 4,
            4 * count <= usize::MAX,
            i <= count,
            r@ == i32_elements(data@).take(i as int),
        decreases count - i,
    {
        let word: i64 = data[4 * i] as i64 + 0x100 * data[4 * i + 1] as i64 + 0x1_0000 * data[4 * i
            + 2] as i64 + 0x100_0000 * data[4 * i + 3] as i64;
        let element: i32 = if word < 0x8000_0000 {
            word as i32
        } else {
            (word - 0x1_0000_0000) as i32
        };
        assert(element == le_i32(data@, 4 * i));
        r.push(element);
        assert(i32_elements(data@).take(i + 1) =~= i32_elements(data@).take(i as int).push(
            element,
        ));
        i = i + 1;
    }
    assert(r@ =~= i32_elements(data@));
    Ok(r)
}

fn copy_of(list: &Vec<usize>) -> (r: Vec<usize>)
    ensures
        r@ == list@,
{
    let mut r: Vec<usize> = Vec::new();
    let mut i: usize = 0;
    while i < list.len()
        invariant
            i <= list@.len(),
            r@ == list@.take(i as int),
        decreases list@.len() - i,
    {
        r.push(list[i]);
        assert(list@.take(i + 1) =~= list@.take(i as int).push(list@[i as int]));
        i = i + 1;
    }
    assert(list@.take(list@.len() as int) =~= list@);
    r
}

/// The error for a tensor of another rank.
pub open spec fn rank_error(info: Info, rank: usize, role: Role) -> Option<Fault> {
    if info.shape.len() == rank {
        None
    } else {
        Some(Fault::WrongRank { role, rank, shape: info.shape })
    }
}

/// The dimensions of a matrix.
pub fn shape2(info: &TensorInfo, role: Role) -> (r: Result<[usize; 2], ModelError>)
    ensures
        match r {
            Ok(shape) => rank_error(info@, 2, role) is None && shape@ == info@.shape,
            Err(e) => rank_error(info@, 2, role) == Some(e@),
        },
{
    if info.shape.len() != 2 {
        return Err(ModelError::WrongRank { role, rank: 2, shape: copy_of(&info.shape) });
    }
    let shape = [info.shape[0], info.shape[1]];
    assert(shape@ =~= info.shape@);
    Ok(shape)
}

/// The dimensions of an NHWC tensor or a filter.
pub fn shape4(info: &TensorInfo, role: Role) -> (r: Result<[usize; 4], ModelError>)
    ensures
        match r {
            Ok(shape) => rank_error(info@, 4, role) is None && shape@ == info@.shape,
            Err(e) => rank_error(info@, 4, role) == Some(e@),
        },
{
    if info.shape.len() != 4 {
        return Err(ModelError::WrongRank { role, rank: 4, shape: copy_of(&info.shape) });
    }
    let shape = [info.shape[0], info.shape[1], info.shape[2], info.shape[3]];
    assert(shape@ =~= info.shape@);
    Ok(shape)
}

/// Counting a vector as a matrix of one row keeps its number of elements.
pub proof fn lemma_full_shape(dims: Seq<i32>)
    ensures
        shape::dims_product(full_shape(dims)) == shape::dims_product(
            Seq::new(dims.len(), |i: int| dims[i] as usize),
        ),
        full_shape(dims).len() != 1,
{
    if dims.len() == 1 {
        reveal_with_fuel(shape::dims_product, 3);
        let sizes = Seq::new(dims.len(), |i: int| dims[i] as usize);
        let full = full_shape(dims);
        assert(full.drop_last() =~= seq![1usize]);
        assert(seq![1usize].drop_last() =~= Seq::<usize>::empty());
        assert(sizes.drop_last() =~= Seq::<usize>::empty());
    }
}

/// The bytes of a 32-bit integer, the least significant one first.
pub open spec fn le_bytes(value: i32) -> Seq<u8> {
    let word = value as int % 0x1_0000_0000;
    seq![
        (word % 0x100) as u8,
        (word / 0x100 % 0x100) as u8,
        (word / 0x1_0000 % 0x100) as u8,
        (word / 0x100_0000) as u8,
    ]
}

/// The bytes of 32-bit integers, one after the other.
pub open spec fn le_bytes_of(values: Seq<i32>) -> Seq<u8> {
    Seq::new(4 * values.len(), |i: int| le_bytes(values[i / 4])[i % 4])
}

proof fn lemma_le_word(value: i32)
    ensures
        le_bytes(value).len() == 4,
        le_i32(le_bytes(value), 0) == value,
{
}

/// What is read of the bytes of 32-bit integers is those integers.
pub proof fn lemma_le_round_trip(values: Seq<i32>)
    ensures
        i32_elements(le_bytes_of(values)) == values,
{
    let bytes = le_bytes_of(values);
    assert forall|k: int| 0 <= k < values.len() implies #[trigger] i32_elements(bytes)[k]
        == values[k] by {
        lemma_le_word(values[k]);
        lemma_word_at(values, k);
    }
    assert(i32_elements(bytes) =~= values);
}

/// Four bytes of the sequence are those of one integer.
proof fn lemma_word_at(values: Seq<i32>, k: int)
    requires
        0 <= k < values.len(),
    ensures
        le_i32(le_bytes_of(values), 4 * k) == le_i32(le_bytes(values[k]), 0),
{
    let bytes = le_bytes_of(values);
    assert forall|j: int| 0 <= j < 4 implies #[trigger] bytes[4 * k + j] == le_bytes(values[k])[j] by {
        assert((4 * k + j) / 4 == k);
        assert((4 * k + j) % 4 == j);
    }
    assert(bytes[4 * k + 0] == le_bytes(values[k])[0]);
}

} // verus!
