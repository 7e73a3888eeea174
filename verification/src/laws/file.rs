//! From the bytes of a file to the tables of a model.
use crate::model;
use crate::model::{Buffer, Model, Operator, OperatorCode, Options, SubGraph, Tensor};
use crate::tflite;
use crate::tflite::Slot;
use vstd::prelude::*;

verus! {

/// The number of `n` bytes at a position, the least significant byte first.
pub open spec fn number(b: Seq<u8>, p: int, n: int) -> int
    decreases n,
{
    if n <= 0 {
        0
    } else {
        b[p] + 0x100 * number(b, p + 1, n - 1)
    }
}

/// The signed number that an unsigned one stands for, below the power of two `range`.
pub open spec fn signed(value: int, range: int) -> int {
    if 2 * value < range {
        value
    } else {
        value - range
    }
}

/// The position of field `k` of the table at `t`, if the table has it: the table begins
/// with the distance back to its vtable, whose first entry is its own size, and whose
/// entry for the field is the distance from the table, or 0.
pub open spec fn field(b: Seq<u8>, t: int, k: int) -> Option<int> {
    let v = t - signed(number(b, t, 4), 0x1_0000_0000);
    if number(b, v, 2) < 6 + 2 * k || number(b, v + 4 + 2 * k, 2) == 0 {
        None
    } else {
        Some(t + number(b, v + 4 + 2 * k, 2))
    }
}

/// The number in field `k`, of `n` bytes, or the default.
pub open spec fn value(b: Seq<u8>, t: int, k: int, n: int, default: int) -> int {
    match field(b, t, k) {
        Some(p) => number(b, p, n),
        None => default,
    }
}

/// What field `k` refers to, if the table has it: the distance lies in the field.
pub open spec fn referred(b: Seq<u8>, t: int, k: int) -> Option<int> {
    match field(b, t, k) {
        Some(p) => Some(p + number(b, p, 4)),
        None => None,
    }
}

/// Number of elements of the vector at `v`.
pub open spec fn count(b: Seq<u8>, v: int) -> int {
    number(b, v, 4)
}

/// Element `i`, of `n` bytes, of the vector at `v`.
pub open spec fn entry(b: Seq<u8>, v: int, i: int, n: int) -> int {
    number(b, v + 4 + n * i, n)
}

/// The table that is element `i` of the vector at `v`.
pub open spec fn table(b: Seq<u8>, v: int, i: int) -> int {
    v + 4 + 4 * i + entry(b, v, i, 4)
}

/// The list holds the signed 32-bit numbers of a vector, if there is one.
pub open spec fn holds_words(b: Seq<u8>, v: Option<int>, list: Option<Vec<i32>>) -> bool {
    match (v, list) {
        (Some(v), Some(list)) => {
            &&& list@.len() == count(b, v)
            &&& forall|i: int|
                0 <= i < list@.len() ==> #[trigger] list@[i] == signed(
                    entry(b, v, i, 4),
                    0x1_0000_0000,
                )
        },
        (None, None) => true,
        _ => false,
    }
}

/// The list holds the bytes of a vector, if there is one.
pub open spec fn holds_bytes(b: Seq<u8>, v: Option<int>, list: Option<Vec<u8>>) -> bool {
    match (v, list) {
        (Some(v), Some(list)) => {
            &&& list@.len() == count(b, v)
            &&& forall|i: int| 0 <= i < list@.len() ==> #[trigger] list@[i] == entry(b, v, i, 1)
        },
        (None, None) => true,
        _ => false,
    }
}

/// The list holds the 32-bit numbers of a vector, if there is one.
pub open spec fn holds_unsigned_words(b: Seq<u8>, v: Option<int>, list: Option<Vec<u32>>) -> bool {
    match (v, list) {
        (Some(v), Some(list)) => {
            &&& list@.len() == count(b, v)
            &&& forall|i: int| 0 <= i < list@.len() ==> #[trigger] list@[i] == entry(b, v, i, 4)
        },
        (None, None) => true,
        _ => false,
    }
}

/// The list holds the signed 64-bit numbers of a vector, if there is one.
pub open spec fn holds_double_words(b: Seq<u8>, v: Option<int>, list: Option<Vec<i64>>) -> bool {
    match (v, list) {
        (Some(v), Some(list)) => {
            &&& list@.len() == count(b, v)
            &&& forall|i: int|
                0 <= i < list@.len() ==> #[trigger] list@[i] == signed(
                    entry(b, v, i, 8),
                    0x1_0000_0000_0000_0000,
                )
        },
        (None, None) => true,
        _ => false,
    }
}

/// A buffer table: its data is field 0.
pub open spec fn holds_buffer(b: Seq<u8>, t: int, buffer: Buffer) -> bool {
    holds_bytes(b, referred(b, t, 0), buffer.data)
}

/// An operator code table: the short code is field 0, the long one field 3.
pub open spec fn holds_code(b: Seq<u8>, t: int, code: OperatorCode) -> bool {
    &&& code.deprecated_builtin_code == signed(value(b, t, 0, 1, 0), 0x100)
    &&& code.builtin_code == signed(value(b, t, 3, 4, 0), 0x1_0000_0000)
}

/// A tensor table: its shape is field 0, the code of its type field 1, the number of its
/// buffer field 2, and its quantization field 4, whose scales are field 2 and whose zero
/// points are field 3.
pub open spec fn holds_tensor(b: Seq<u8>, t: int, tensor: Tensor) -> bool {
    &&& holds_words(b, referred(b, t, 0), tensor.shape)
    &&& tensor.tensor_type == signed(value(b, t, 1, 1, 0), 0x100)
    &&& tensor.buffer == value(b, t, 2, 4, 0)
    &&& match (referred(b, t, 4), tensor.quantization) {
        (Some(q), Some(quantization)) => {
            &&& holds_unsigned_words(b, referred(b, q, 2), quantization.scale)
            &&& holds_double_words(b, referred(b, q, 3), quantization.zero_point)
        },
        (None, None) => true,
        _ => false,
    }
}

/// A signed 32-bit number in field `k`, or the default.
pub open spec fn word(b: Seq<u8>, t: int, k: int, default: int) -> int {
    signed(value(b, t, k, 4, default), 0x1_0000_0000)
}

/// A signed byte in field `k`, or 0.
pub open spec fn byte(b: Seq<u8>, t: int, k: int) -> int {
    signed(value(b, t, k, 1, 0), 0x100)
}

/// An options table of a kind. Strides, sizes and depth multipliers are 0 where the table
/// leaves them out, and dilations 1.
pub open spec fn holds_options(b: Seq<u8>, t: int, kind: int, options: Options) -> bool {
    match options {
        Options::Conv2d {
            padding,
            stride_w,
            stride_h,
            activation,
            dilation_w_factor,
            dilation_h_factor,
        } => {
            &&& kind == 1
            &&& padding == byte(b, t, 0)
            &&& stride_w == word(b, t, 1, 0)
            &&& stride_h == word(b, t, 2, 0)
            &&& activation == byte(b, t, 3)
            &&& dilation_w_factor == word(b, t, 4, 1)
            &&& dilation_h_factor == word(b, t, 5, 1)
        },
        Options::DepthwiseConv2d {
            padding,
            stride_w,
            stride_h,
            depth_multiplier,
            activation,
            dilation_w_factor,
            dilation_h_factor,
        } => {
            &&& kind == 2
            &&& padding == byte(b, t, 0)
            &&& stride_w == word(b, t, 1, 0)
            &&& stride_h == word(b, t, 2, 0)
            &&& depth_multiplier == word(b, t, 3, 0)
            &&& activation == byte(b, t, 4)
            &&& dilation_w_factor == word(b, t, 5, 1)
            &&& dilation_h_factor == word(b, t, 6, 1)
        },
        Options::Pool2d {
            padding,
            stride_w,
            stride_h,
            filter_width,
            filter_height,
            activation,
        } => {
            &&& kind == 5
            &&& padding == byte(b, t, 0)
            &&& stride_w == word(b, t, 1, 0)
            &&& stride_h == word(b, t, 2, 0)
            &&& filter_width == word(b, t, 3, 0)
            &&& filter_height == word(b, t, 4, 0)
            &&& activation == byte(b, t, 5)
        },
        Options::FullyConnected { activation } => kind == 8 && activation == byte(b, t, 0),
        Options::Softmax { beta } => kind == 9 && beta == value(b, t, 0, 4, 0),
        Options::Add { activation } => kind == 11 && activation == byte(b, t, 0),
        Options::Other => kind != 1 && kind != 2 && kind != 5 && kind != 8 && kind != 9 && kind
            != 11,
    }
}

/// An operator table: the number of its code is field 0, its inputs are field 1, its
/// outputs field 2, the kind of its options field 3 and the options themselves field 4.
pub open spec fn holds_operator(b: Seq<u8>, t: int, operator: Operator) -> bool {
    &&& operator.opcode_index == value(b, t, 0, 4, 0)
    &&& holds_words(b, referred(b, t, 1), operator.inputs)
    &&& holds_words(b, referred(b, t, 2), operator.outputs)
    &&& match referred(b, t, 4) {
        Some(q) => holds_options(b, q, value(b, t, 3, 1, 0), operator.options),
        None => operator.options is Other,
    }
}

/// A graph table: its tensors are field 0, its inputs field 1, its outputs field 2 and
/// its operators field 3.
pub open spec fn holds_graph(b: Seq<u8>, t: int, graph: SubGraph) -> bool {
    &&& match (referred(b, t, 0), graph.tensors) {
        (Some(v), Some(list)) => {
            &&& list@.len() == count(b, v)
            &&& forall|i: int|
                0 <= i < list@.len() ==> holds_tensor(b, table(b, v, i), #[trigger] list@[i])
        },
        (None, None) => true,
        _ => false,
    }
    &&& holds_words(b, referred(b, t, 1), graph.inputs)
    &&& holds_words(b, referred(b, t, 2), graph.outputs)
    &&& match (referred(b, t, 3), graph.operators) {
        (Some(v), Some(list)) => {
            &&& list@.len() == count(b, v)
            &&& forall|i: int|
                0 <= i < list@.len() ==> holds_operator(b, table(b, v, i), #[trigger] list@[i])
        },
        (None, None) => true,
        _ => false,
    }
}

/// A file: its first number refers to the table of the model, whose operator codes are
/// field 1, its graphs field 2 and its buffers field 4.
pub open spec fn holds_model(b: Seq<u8>, m: Model) -> bool {
    let t = number(b, 0, 4);
    &&& match (referred(b, t, 1), m.operator_codes) {
        (Some(v), Some(list)) => {
            &&& list@.len() == count(b, v)
            &&& forall|i: int|
                0 <= i < list@.len() ==> holds_code(b, table(b, v, i), #[trigger] list@[i])
        },
        (None, None) => true,
        _ => false,
    }
    &&& match (referred(b, t, 2), m.subgraphs) {
        (Some(v), Some(list)) => {
            &&& list@.len() == count(b, v)
            &&& forall|i: int|
                0 <= i < list@.len() ==> holds_graph(b, table(b, v, i), #[trigger] list@[i])
        },
        (None, None) => true,
        _ => false,
    }
    &&& match (referred(b, t, 4), m.buffers) {
        (Some(v), Some(list)) => {
            &&& list@.len() == count(b, v)
            &&& forall|i: int|
                0 <= i < list@.len() ==> holds_buffer(b, table(b, v, i), #[trigger] list@[i])
        },
        (None, None) => true,
        _ => false,
    }
}

proof fn lemma_numbers(b: Seq<u8>, p: int)
    ensures
        number(b, p, 1) == b[p],
        number(b, p, 2) == tflite::u16_at(b, p),
        number(b, p, 4) == tflite::u32_at(b, p),
        signed(number(b, p, 4), 0x1_0000_0000) == model::le_i32(b, p),
        number(b, p, 8) == number(b, p, 4) + 0x1_0000_0000 * number(b, p + 4, 4),
        signed(number(b, p, 8), 0x1_0000_0000_0000_0000) == tflite::i64_at(b, p),
{
    reveal_with_fuel(number, 9);
}

/// A field of a table that the file holds.
proof fn lemma_field(b: Seq<u8>, t: int, k: int)
    requires
        k >= 0,
        tflite::slot(b, t, k) !is Broken,
    ensures
        match tflite::slot(b, t, k) {
            Slot::At(p) => field(b, t, k) == Some(p) && number(b, p, 1) == b[p] && number(b, p, 4)
                == tflite::u32_at(b, p) && signed(number(b, p, 4), 0x1_0000_0000)
                == model::le_i32(b, p),
            _ => field(b, t, k) is None,
        },
{
    let v = t - model::le_i32(b, t);
    lemma_numbers(b, t);
    lemma_numbers(b, v);
    lemma_numbers(b, v + 4 + 2 * k);
    if let Slot::At(p) = tflite::slot(b, t, k) {
        lemma_numbers(b, p);
    }
}

/// A vector that the file holds.
proof fn lemma_vector(b: Seq<u8>, t: int, k: int, size: int)
    requires
        k >= 0,
        tflite::span_field(b, t, k, size) is Some,
    ensures
        match tflite::span_field(b, t, k, size)->0 {
            Some(s) => referred(b, t, k) == Some(s.start - 4) && count(b, s.start - 4) == s.count,
            None => referred(b, t, k) is None,
        },
{
    lemma_field(b, t, k);
    if let Slot::At(f) = tflite::slot(b, t, k) {
        lemma_numbers(b, f);
        lemma_numbers(b, tflite::target(b, f)->0);
    }
}

proof fn lemma_words(b: Seq<u8>, t: int, k: int, list: Option<Vec<i32>>)
    requires
        k >= 0,
        tflite::i32_list_is(b, tflite::span_field(b, t, k, 4), list),
    ensures
        holds_words(b, referred(b, t, k), list),
{
    lemma_vector(b, t, k, 4);
    if let Some(v) = referred(b, t, k) {
        assert forall|i: int| 0 <= i < list->0@.len() implies #[trigger] list->0@[i] == signed(
            entry(b, v, i, 4),
            0x1_0000_0000,
        ) by {
            lemma_numbers(b, v + 4 + 4 * i);
        }
    }
}

proof fn lemma_lists(
    b: Seq<u8>,
    t: int,
    bytes: Option<Vec<u8>>,
    words: Option<Vec<u32>>,
    double_words: Option<Vec<i64>>,
)
    ensures
        tflite::u8_list_is(b, tflite::span_field(b, t, 0, 1), bytes) ==> holds_bytes(
            b,
            referred(b, t, 0),
            bytes,
        ),
        tflite::u32_list_is(b, tflite::span_field(b, t, 2, 4), words) ==> holds_unsigned_words(
            b,
            referred(b, t, 2),
            words,
        ),
        tflite::i64_list_is(b, tflite::span_field(b, t, 3, 8), double_words) ==> holds_double_words(
            b,
            referred(b, t, 3),
            double_words,
        ),
{
    if tflite::u8_list_is(b, tflite::span_field(b, t, 0, 1), bytes) {
        lemma_vector(b, t, 0, 1);
        if let Some(v) = referred(b, t, 0) {
            assert forall|i: int| 0 <= i < bytes->0@.len() implies #[trigger] bytes->0@[i] == entry(
                b,
                v,
                i,
                1,
            ) by {
                lemma_numbers(b, v + 4 + i);
            }
        }
    }
    if tflite::u32_list_is(b, tflite::span_field(b, t, 2, 4), words) {
        lemma_vector(b, t, 2, 4);
        if let Some(v) = referred(b, t, 2) {
            assert forall|i: int| 0 <= i < words->0@.len() implies #[trigger] words->0@[i] == entry(
                b,
                v,
                i,
                4,
            ) by {
                lemma_numbers(b, v + 4 + 4 * i);
            }
        }
    }
    if tflite::i64_list_is(b, tflite::span_field(b, t, 3, 8), double_words) {
        lemma_vector(b, t, 3, 8);
        if let Some(v) = referred(b, t, 3) {
            let list = double_words->0@;
            assert forall|i: int| 0 <= i < list.len() implies #[trigger] list[i] == signed(
                entry(b, v, i, 8),
                0x1_0000_0000_0000_0000,
            ) by {
                lemma_numbers(b, v + 4 + 8 * i);
            }
        }
    }
}

proof fn lemma_code(b: Seq<u8>, t: int, code: OperatorCode)
    requires
        tflite::code_is(b, t, code),
    ensures
        holds_code(b, t, code),
{
    lemma_field(b, t, 0);
    lemma_field(b, t, 3);
}

proof fn lemma_tensor(b: Seq<u8>, t: int, tensor: Tensor)
    requires
        tflite::tensor_is(b, t, tensor),
    ensures
        holds_tensor(b, t, tensor),
{
    lemma_words(b, t, 0, tensor.shape);
    lemma_field(b, t, 1);
    lemma_field(b, t, 2);
    lemma_field(b, t, 4);
    if let Some(q) = tensor.quantization {
        lemma_lists(b, referred(b, t, 4)->0, None, q.scale, q.zero_point);
    }
}

proof fn lemma_byte(b: Seq<u8>, t: int, k: int)
    requires
        k >= 0,
        tflite::i8_field(b, t, k, 0) is Some,
    ensures
        tflite::i8_field(b, t, k, 0)->0 == byte(b, t, k),
{
    lemma_field(b, t, k);
}

proof fn lemma_word(b: Seq<u8>, t: int, k: int, default: i32)
    requires
        k >= 0,
        0 <= default,
        tflite::i32_field(b, t, k, default) is Some,
    ensures
        tflite::i32_field(b, t, k, default)->0 == word(b, t, k, default as int),
{
    lemma_field(b, t, k);
}

/// The fields of an options table.
#[verifier::rlimit(40)]
proof fn lemma_options(b: Seq<u8>, q: int, kind: u8)
    requires
        tflite::options_table_ok(b, q, kind),
    ensures
        holds_options(b, q, kind as int, tflite::options_table(b, q, kind)),
{
    if kind == 1 || kind == 2 || kind == 5 {
        lemma_byte(b, q, 0);
        lemma_word(b, q, 1, 0);
        lemma_word(b, q, 2, 0);
        if kind == 1 {
            lemma_byte(b, q, 3);
            lemma_word(b, q, 4, 1);
            lemma_word(b, q, 5, 1);
        } else if kind == 2 {
            lemma_word(b, q, 3, 0);
            lemma_byte(b, q, 4);
            lemma_word(b, q, 5, 1);
            lemma_word(b, q, 6, 1);
        } else {
            lemma_word(b, q, 3, 0);
            lemma_word(b, q, 4, 0);
            lemma_byte(b, q, 5);
        }
    } else if kind == 8 || kind == 11 {
        lemma_byte(b, q, 0);
    } else if kind == 9 {
        lemma_field(b, q, 0);
    }
}

#[verifier::rlimit(40)]
proof fn lemma_operator(b: Seq<u8>, t: int, operator: Operator)
    requires
        tflite::operator_is(b, t, operator),
        tflite::operator_ok(b, t),
    ensures
        holds_operator(b, t, operator),
{
    lemma_field(b, t, 0);
    lemma_words(b, t, 1, operator.inputs);
    lemma_words(b, t, 2, operator.outputs);
    lemma_field(b, t, 3);
    lemma_field(b, t, 4);
    if let Some(q) = referred(b, t, 4) {
        lemma_options(b, q, tflite::u8_field(b, t, 3, 0)->0);
    }
}

proof fn lemma_graph(b: Seq<u8>, t: int, graph: SubGraph)
    requires
        tflite::graph_is(b, t, graph),
        tflite::graph_ok(b, t),
    ensures
        holds_graph(b, t, graph),
{
    lemma_vector(b, t, 0, 4);
    lemma_words(b, t, 1, graph.inputs);
    lemma_words(b, t, 2, graph.outputs);
    lemma_vector(b, t, 3, 4);
    if let Some(v) = referred(b, t, 0) {
        let s = tflite::span_field(b, t, 0, 4)->0->0;
        assert forall|i: int| 0 <= i < count(b, v) implies holds_tensor(
            b,
            table(b, v, i),
            #[trigger] graph.tensors->0@[i],
        ) by {
            lemma_numbers(b, v + 4 + 4 * i);
            assert(table(b, v, i) == tflite::table_at(b, s, i));
            lemma_tensor(b, table(b, v, i), graph.tensors->0@[i]);
        }
    }
    if let Some(v) = referred(b, t, 3) {
        let s = tflite::span_field(b, t, 3, 4)->0->0;
        assert forall|i: int| 0 <= i < count(b, v) implies holds_operator(
            b,
            table(b, v, i),
            #[trigger] graph.operators->0@[i],
        ) by {
            lemma_numbers(b, v + 4 + 4 * i);
            assert(table(b, v, i) == tflite::table_at(b, s, i));
            lemma_operator(b, table(b, v, i), graph.operators->0@[i]);
        }
    }
}

/// What is read of a file is the model whose tables it holds.
pub proof fn law_read_model(bytes: &[u8], well_formed: bool, m: Model)
    requires
        call_ensures(tflite::read_model, (bytes, well_formed), Some(m)),
    ensures
        well_formed,
        holds_model(bytes@, m),
{
    let b = bytes@;
    let t = tflite::target(b, 0)->0;
    lemma_numbers(b, 0);
    lemma_vector(b, t, 1, 4);
    lemma_vector(b, t, 2, 4);
    lemma_vector(b, t, 4, 4);
    if let Some(v) = referred(b, t, 1) {
        let s = tflite::span_field(b, t, 1, 4)->0->0;
        assert forall|i: int| 0 <= i < count(b, v) implies holds_code(
            b,
            table(b, v, i),
            #[trigger] m.operator_codes->0@[i],
        ) by {
            lemma_numbers(b, v + 4 + 4 * i);
            assert(table(b, v, i) == tflite::table_at(b, s, i));
            lemma_code(b, table(b, v, i), m.operator_codes->0@[i]);
        }
    }
    if let Some(v) = referred(b, t, 2) {
        let s = tflite::span_field(b, t, 2, 4)->0->0;
        assert forall|i: int| 0 <= i < count(b, v) implies holds_graph(
            b,
            table(b, v, i),
            #[trigger] m.subgraphs->0@[i],
        ) by {
            lemma_numbers(b, v + 4 + 4 * i);
            assert(table(b, v, i) == tflite::table_at(b, s, i));
            lemma_graph(b, table(b, v, i), m.subgraphs->0@[i]);
        }
    }
    if let Some(v) = referred(b, t, 4) {
        let s = tflite::span_field(b, t, 4, 4)->0->0;
        assert forall|i: int| 0 <= i < count(b, v) implies holds_buffer(
            b,
            table(b, v, i),
            #[trigger] m.buffers->0@[i],
        ) by {
            lemma_numbers(b, v + 4 + 4 * i);
            assert(table(b, v, i) == tflite::table_at(b, s, i));
            lemma_lists(b, table(b, v, i), m.buffers->0@[i].data, None, None);
        }
    }
}

/// `n` bytes at a position lie in the file.
pub open spec fn lies(b: Seq<u8>, p: int, n: int) -> bool {
    0 <= p && p + n <= b.len()
}

/// The table at `t` and what its vtable says of field `k` lie in the file.
pub open spec fn has_field(b: Seq<u8>, t: int, k: int) -> bool {
    let v = t - signed(number(b, t, 4), 0x1_0000_0000);
    &&& lies(b, t, 4)
    &&& lies(b, v, 2)
    &&& number(b, v, 2) >= 6 + 2 * k ==> lies(b, v + 4 + 2 * k, 2)
}

/// Field `k`, of `n` bytes, lies in the file, if the table has it.
pub open spec fn has_value(b: Seq<u8>, t: int, k: int, n: int) -> bool {
    has_field(b, t, k) && (field(b, t, k) matches Some(p) ==> lies(b, p, n))
}

/// The vector of elements of `n` bytes that field `k` refers to lies in the file, if the
/// table has it.
pub open spec fn has_vector(b: Seq<u8>, t: int, k: int, n: int) -> bool {
    &&& has_value(b, t, k, 4)
    &&& referred(b, t, k) matches Some(v) ==> lies(b, v, 4) && lies(b, v + 4, n * count(b, v))
}

/// A tensor table lies in the file.
pub open spec fn has_tensor(b: Seq<u8>, t: int) -> bool {
    &&& has_vector(b, t, 0, 4)
    &&& has_value(b, t, 1, 1)
    &&& has_value(b, t, 2, 4)
    &&& has_value(b, t, 4, 4)
    &&& referred(b, t, 4) matches Some(q) ==> has_vector(b, q, 2, 4) && has_vector(b, q, 3, 8)
}

/// The fields of an options table lie in the file.
pub open spec fn has_options(b: Seq<u8>, t: int, kind: int) -> bool {
    if kind == 1 {
        &&& has_value(b, t, 0, 1)
        &&& has_value(b, t, 1, 4)
        &&& has_value(b, t, 2, 4)
        &&& has_value(b, t, 3, 1)
        &&& has_value(b, t, 4, 4)
        &&& has_value(b, t, 5, 4)
    } else if kind == 2 {
        &&& has_value(b, t, 0, 1)
        &&& has_value(b, t, 1, 4)
        &&& has_value(b, t, 2, 4)
        &&& has_value(b, t, 3, 4)
        &&& has_value(b, t, 4, 1)
        &&& has_value(b, t, 5, 4)
        &&& has_value(b, t, 6, 4)
    } else if kind == 5 {
        &&& has_value(b, t, 0, 1)
        &&& has_value(b, t, 1, 4)
        &&& has_value(b, t, 2, 4)
        &&& has_value(b, t, 3, 4)
        &&& has_value(b, t, 4, 4)
        &&& has_value(b, t, 5, 1)
    } else if kind == 9 {
        has_value(b, t, 0, 4)
    } else {
        kind == 8 || kind == 11 ==> has_value(b, t, 0, 1)
    }
}

/// An operator table lies in the file.
pub open spec fn has_operator(b: Seq<u8>, t: int) -> bool {
    &&& has_value(b, t, 0, 4)
    &&& has_vector(b, t, 1, 4)
    &&& has_vector(b, t, 2, 4)
    &&& has_value(b, t, 3, 1)
    &&& has_value(b, t, 4, 4)
    &&& referred(b, t, 4) matches Some(q) ==> has_options(b, q, value(b, t, 3, 1, 0))
}

/// A graph table lies in the file.
pub open spec fn has_graph(b: Seq<u8>, t: int) -> bool {
    &&& has_vector(b, t, 0, 4)
    &&& referred(b, t, 0) matches Some(v) ==> forall|i: int|
        0 <= i < count(b, v) ==> has_tensor(b, #[trigger] table(b, v, i))
    &&& has_vector(b, t, 1, 4)
    &&& has_vector(b, t, 2, 4)
    &&& has_vector(b, t, 3, 4)
    &&& referred(b, t, 3) matches Some(v) ==> forall|i: int|
        0 <= i < count(b, v) ==> has_operator(b, #[trigger] table(b, v, i))
}

/// All tables of the model lie in the file.
pub open spec fn has_model(b: Seq<u8>) -> bool {
    let t = number(b, 0, 4);
    &&& lies(b, 0, 4)
    &&& has_vector(b, t, 1, 4)
    &&& referred(b, t, 1) matches Some(v) ==> forall|i: int|
        0 <= i < count(b, v) ==> {
            &&& has_value(b, #[trigger] table(b, v, i), 0, 1)
            &&& has_value(b, table(b, v, i), 3, 4)
        }
    &&& has_vector(b, t, 2, 4)
    &&& referred(b, t, 2) matches Some(v) ==> forall|i: int|
        0 <= i < count(b, v) ==> has_graph(b, #[trigger] table(b, v, i))
    &&& has_vector(b, t, 4, 4)
    &&& referred(b, t, 4) matches Some(v) ==> forall|i: int|
        0 <= i < count(b, v) ==> has_vector(b, #[trigger] table(b, v, i), 0, 1)
}

/// A field that lies in the file is not broken.
proof fn lemma_whole(b: Seq<u8>, t: int, k: int)
    requires
        k >= 0,
    ensures
        has_field(b, t, k) <==> tflite::slot(b, t, k) !is Broken,
{
    let v = t - model::le_i32(b, t);
    lemma_numbers(b, t);
    lemma_numbers(b, v);
}

proof fn lemma_has(b: Seq<u8>, t: int, k: int)
    requires
        k >= 0,
    ensures
        has_value(b, t, k, 1) <==> tflite::i8_field(b, t, k, 0) is Some,
        has_value(b, t, k, 1) <==> tflite::u8_field(b, t, k, 0) is Some,
        has_value(b, t, k, 4) <==> tflite::u32_field(b, t, k, 0) is Some,
        forall|d: i32|
            has_value(b, t, k, 4) <==> #[trigger] tflite::i32_field(b, t, k, d) is Some,
        has_value(b, t, k, 4) <==> match tflite::slot(b, t, k) {
            Slot::Broken => false,
            Slot::Absent => true,
            Slot::At(f) => tflite::target(b, f) is Some,
        },
        has_value(b, t, k, 4) ==> referred(b, t, k) == match tflite::slot(b, t, k) {
            Slot::At(f) => tflite::target(b, f),
            _ => None,
        },
        has_value(b, t, k, 1) ==> value(b, t, k, 1, 0) == tflite::u8_field(b, t, k, 0)->0,
{
    lemma_whole(b, t, k);
    if has_field(b, t, k) {
        lemma_field(b, t, k);
    }
}

proof fn lemma_has_vector(b: Seq<u8>, t: int, k: int, n: int)
    requires
        k >= 0,
    ensures
        has_vector(b, t, k, n) <==> tflite::span_field(b, t, k, n) is Some,
{
    lemma_has(b, t, k);
    if let Some(v) = referred(b, t, k) {
        lemma_numbers(b, v);
    }
    if let Slot::At(f) = tflite::slot(b, t, k) {
        if let Some(v) = tflite::target(b, f) {
            lemma_numbers(b, v);
        }
    }
}

proof fn lemma_has_tensor(b: Seq<u8>, t: int)
    ensures
        has_tensor(b, t) <==> tflite::tensor_ok(b, t),
{
    lemma_has_vector(b, t, 0, 4);
    lemma_has(b, t, 1);
    lemma_has(b, t, 2);
    lemma_has(b, t, 4);
    if let Some(q) = referred(b, t, 4) {
        lemma_has_vector(b, q, 2, 4);
        lemma_has_vector(b, q, 3, 8);
    }
}

proof fn lemma_has_options(b: Seq<u8>, t: int, kind: u8)
    ensures
        has_options(b, t, kind as int) <==> tflite::options_table_ok(b, t, kind),
{
    lemma_has(b, t, 0);
    lemma_has(b, t, 1);
    lemma_has(b, t, 2);
    lemma_has(b, t, 3);
    lemma_has(b, t, 4);
    lemma_has(b, t, 5);
    lemma_has(b, t, 6);
}

proof fn lemma_has_operator(b: Seq<u8>, t: int)
    ensures
        has_operator(b, t) <==> tflite::operator_ok(b, t),
{
    lemma_has(b, t, 0);
    lemma_has_vector(b, t, 1, 4);
    lemma_has_vector(b, t, 2, 4);
    lemma_has(b, t, 3);
    lemma_has(b, t, 4);
    if let Some(q) = referred(b, t, 4) {
        if has_value(b, t, 3, 1) {
            lemma_has_options(b, q, tflite::u8_field(b, t, 3, 0)->0);
        }
    }
}

/// The tables of a vector.
proof fn lemma_tables(b: Seq<u8>, t: int, k: int)
    requires
        k >= 0,
        has_vector(b, t, k, 4),
    ensures
        match tflite::span_field(b, t, k, 4)->0 {
            Some(s) => referred(b, t, k) == Some(s.start - 4) && count(b, s.start - 4) == s.count
                && forall|i: int|
                #![trigger table(b, s.start - 4, i)]
                #![trigger tflite::table_at(b, s, i)]
                table(b, s.start - 4, i) == tflite::table_at(b, s, i),
            None => referred(b, t, k) is None,
        },
{
    lemma_has_vector(b, t, k, 4);
    lemma_vector(b, t, k, 4);
    if let Some(s) = tflite::span_field(b, t, k, 4)->0 {
        assert forall|i: int|
            #![trigger table(b, s.start - 4, i)]
            #![trigger tflite::table_at(b, s, i)]
            table(b, s.start - 4, i) == tflite::table_at(b, s, i) by {
            lemma_numbers(b, s.start + 4 * i);
        }
    }
}

proof fn lemma_has_graph(b: Seq<u8>, t: int)
    ensures
        has_graph(b, t) <==> tflite::graph_ok(b, t),
{
    lemma_has_vector(b, t, 0, 4);
    lemma_has_vector(b, t, 1, 4);
    lemma_has_vector(b, t, 2, 4);
    lemma_has_vector(b, t, 3, 4);
    if has_vector(b, t, 0, 4) && has_vector(b, t, 3, 4) {
        lemma_tables(b, t, 0);
        lemma_tables(b, t, 3);
        assert forall|p: int| #[trigger] has_tensor(b, p) <==> tflite::tensor_ok(b, p) by {
            lemma_has_tensor(b, p);
        }
        assert forall|p: int| #[trigger] tflite::tensor_ok(b, p) <==> has_tensor(b, p) by {
            lemma_has_tensor(b, p);
        }
        assert forall|p: int| #[trigger] has_operator(b, p) <==> tflite::operator_ok(b, p) by {
            lemma_has_operator(b, p);
        }
        assert forall|p: int| #[trigger] tflite::operator_ok(b, p) <==> has_operator(b, p) by {
            lemma_has_operator(b, p);
        }
        if let Some(s) = tflite::span_field(b, t, 0, 4)->0 {
            assert(tflite::tensors_ok(b, s) <==> forall|i: int|
                0 <= i < count(b, s.start - 4) ==> has_tensor(
                    b,
                    #[trigger] table(b, s.start - 4, i),
                ));
        }
        if let Some(s) = tflite::span_field(b, t, 3, 4)->0 {
            assert(tflite::operators_ok(b, s) <==> forall|i: int|
                0 <= i < count(b, s.start - 4) ==> has_operator(
                    b,
                    #[trigger] table(b, s.start - 4, i),
                ));
        }
    }
}

/// A file that is well formed is read exactly where all tables of its model lie in it.
pub proof fn law_readable(bytes: &[u8], well_formed: bool, r: Option<Model>)
    requires
        call_ensures(tflite::read_model, (bytes, well_formed), r),
    ensures
        r is Some <==> well_formed && has_model(bytes@),
{
    let b = bytes@;
    let t = number(b, 0, 4);
    lemma_numbers(b, 0);
    lemma_has_vector(b, t, 1, 4);
    lemma_has_vector(b, t, 2, 4);
    lemma_has_vector(b, t, 4, 4);
    if has_vector(b, t, 1, 4) && has_vector(b, t, 2, 4) && has_vector(b, t, 4, 4) {
        lemma_tables(b, t, 1);
        lemma_tables(b, t, 2);
        lemma_tables(b, t, 4);
        if let Some(s) = tflite::span_field(b, t, 1, 4)->0 {
            let v = s.start - 4;
            assert forall|i: int| 0 <= i < s.count implies (has_value(
                b,
                #[trigger] table(b, v, i),
                0,
                1,
            ) && has_value(b, table(b, v, i), 3, 4)) == tflite::code_ok(
                b,
                tflite::table_at(b, s, i),
            ) by {
                lemma_has(b, table(b, v, i), 0);
                lemma_has(b, table(b, v, i), 3);
            }
        }
        if let Some(s) = tflite::span_field(b, t, 2, 4)->0 {
            let v = s.start - 4;
            assert forall|i: int| 0 <= i < s.count implies has_graph(b, #[trigger] table(b, v, i))
                == tflite::graph_ok(b, tflite::table_at(b, s, i)) by {
                lemma_has_graph(b, table(b, v, i));
            }
        }
        if let Some(s) = tflite::span_field(b, t, 4, 4)->0 {
            let v = s.start - 4;
            assert forall|i: int| 0 <= i < s.count implies has_vector(
                b,
                #[trigger] table(b, v, i),
                0,
                1,
            ) == tflite::buffer_ok(b, tflite::table_at(b, s, i)) by {
                lemma_has_vector(b, table(b, v, i), 0, 1);
            }
        }
    }
}

} // verus!
