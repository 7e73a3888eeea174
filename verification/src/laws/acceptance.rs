//! Which models can be run, and what is said of the others.
use crate::laws::model as tables;
use crate::layer::Plan;
use crate::load;
use crate::load::FileError;
use crate::model;
use crate::model::{Model, ModelError, Options, Role, Tensor};
use crate::plan;
use crate::shape;
use crate::tflite;
use vstd::prelude::*;

verus! {

/// The graph that is run, and all its lists, are there.
pub open spec fn is_complete(m: Model) -> bool {
    &&& m.subgraphs is Some && m.subgraphs->0@.len() > 0
    &&& m.buffers is Some
    &&& m.subgraphs->0@[0].tensors is Some
    &&& m.subgraphs->0@[0].operators is Some
    &&& m.subgraphs->0@[0].inputs is Some && m.subgraphs->0@[0].inputs->0@.len() > 0
    &&& m.subgraphs->0@[0].outputs is Some && m.subgraphs->0@[0].outputs->0@.len() > 0
}

/// The elements of a tensor can be counted, at every dimension.
pub open spec fn is_countable(t: Tensor) -> bool {
    forall|n: int|
        0 <= n <= t.shape->0@.len() ==> #[trigger] tables::product(t.shape->0@, n) <= usize::MAX
}

/// The tensor of a number has a shape and a quantization.
pub open spec fn is_described(m: Model, id: int) -> bool {
    &&& 0 <= id < m.subgraphs->0@[0].tensors->0@.len()
    &&& tables::tensor(m, id).shape is Some
    &&& tables::tensor(m, id).quantization is Some
}

/// The tensor of a number has a buffer.
pub open spec fn has_buffer(m: Model, id: int) -> bool {
    &&& 0 <= id < m.subgraphs->0@[0].tensors->0@.len()
    &&& tables::tensor(m, id).buffer < m.buffers->0@.len()
}

/// The operator has `n` inputs, and an output.
pub open spec fn has_tensors(m: Model, k: int, n: int) -> bool {
    &&& tables::operator(m, k).inputs is Some && tables::operator(m, k).inputs->0@.len() >= n
    &&& tables::operator(m, k).outputs is Some && tables::operator(m, k).outputs->0@.len() > 0
}

/// The tensor of a number has four dimensions.
pub open spec fn is_image(m: Model, id: int) -> bool {
    tables::tensor(m, id).shape->0@.len() == 4
}

/// The tensor of a number is a matrix, or a vector, which counts as one.
pub open spec fn is_matrix(m: Model, id: int) -> bool {
    tables::tensor(m, id).shape->0@.len() == 1 || tables::tensor(m, id).shape->0@.len() == 2
}

/// Input, weights and output are INT8 tensors, and weights and bias have elements.
pub open spec fn has_weights(m: Model, k: int) -> bool {
    &&& has_tensors(m, k, 2)
    &&& tables::is_int8(m, tables::input_id(m, k, 0))
    &&& tables::is_int8(m, tables::input_id(m, k, 1))
    &&& tables::is_int8(m, tables::output_id(m, k))
    &&& has_buffer(m, tables::input_id(m, k, 1))
    &&& tables::operator(m, k).inputs->0@.len() > 2 && tables::operator(m, k).inputs->0@[2] >= 0
        ==> has_buffer(m, tables::input_id(m, k, 2))
    &&& is_countable(tables::tensor(m, tables::output_id(m, k)))
}

/// Input and output are INT8 tensors.
pub open spec fn has_input(m: Model, k: int) -> bool {
    &&& has_tensors(m, k, 1)
    &&& tables::is_int8(m, tables::input_id(m, k, 0))
    &&& tables::is_int8(m, tables::output_id(m, k))
    &&& is_countable(tables::tensor(m, tables::output_id(m, k)))
}

/// A code of a padding strategy.
pub open spec fn is_padding(code: i8) -> bool {
    0 <= code <= 1
}

/// A code of an activation.
pub open spec fn is_activation(code: i8) -> bool {
    0 <= code <= 6
}

/// Operator `k` can be run.
pub open spec fn is_supported(m: Model, k: int) -> bool {
    let code = tables::code(m, k);
    let (i, w, o) = (
        tables::input_id(m, k, 0),
        tables::input_id(m, k, 1),
        tables::output_id(m, k),
    );
    &&& m.operator_codes is Some
    &&& tables::operator(m, k).opcode_index < m.operator_codes->0@.len()
    &&& if code == 3 {
        &&& has_weights(m, k)
        &&& is_image(m, i) && is_image(m, w) && is_image(m, o)
        &&& tables::operator(m, k).options matches Options::Conv2d { padding, activation, .. }
            && is_padding(padding) && is_activation(activation)
    } else if code == 4 {
        &&& has_weights(m, k)
        &&& is_image(m, i) && is_image(m, w) && is_image(m, o)
        &&& tables::operator(m, k).options matches Options::DepthwiseConv2d {
            padding,
            activation,
            ..
        } && is_padding(padding) && is_activation(activation)
    } else if code == 9 {
        &&& has_weights(m, k)
        &&& is_matrix(m, w)
        &&& tables::operator(m, k).options matches Options::FullyConnected { activation }
            && is_activation(activation)
    } else if code == 1 || code == 17 {
        &&& has_input(m, k)
        &&& is_image(m, i) && is_image(m, o)
        &&& tables::operator(m, k).options matches Options::Pool2d { padding, activation, .. }
            && is_padding(padding) && is_activation(activation)
    } else if code == 25 {
        &&& has_input(m, k)
        &&& is_matrix(m, i)
        &&& tables::operator(m, k).options is Softmax
    } else if code == 0 {
        &&& has_tensors(m, k, 2)
        &&& tables::is_int8(m, i) && tables::is_int8(m, w) && tables::is_int8(m, o)
        &&& is_countable(tables::tensor(m, o))
        &&& tables::operator(m, k).options matches Options::Add { activation } && is_activation(
            activation,
        )
    } else {
        &&& code == 22
        &&& has_tensors(m, k, 1)
        &&& is_described(m, o)
        &&& is_countable(tables::tensor(m, o))
    }
}

/// The input and the output of the model are INT8 tensors.
pub open spec fn has_interface(m: Model) -> bool {
    &&& is_complete(m)
    &&& tables::is_int8(m, tables::model_input_id(m))
    &&& tables::is_int8(m, tables::model_output_id(m))
    &&& is_countable(tables::tensor(m, tables::model_input_id(m)))
    &&& is_countable(tables::tensor(m, tables::model_output_id(m)))
}

pub proof fn lemma_countable(t: Tensor)
    requires
        t.shape is Some,
        t.quantization is Some,
    ensures
        model::info_of(t)->0.countable() == is_countable(t),
{
    let dims = t.shape->0@;
    let full = model::full_shape(dims);
    let sizes = Seq::new(dims.len(), |i: int| dims[i] as usize);
    assert forall|n: int| 0 <= n <= dims.len() implies tables::product(dims, n)
        == #[trigger] shape::dims_product(sizes.take(n)) by {
        tables::lemma_product(dims, n);
        assert(sizes.take(n) =~= Seq::new(n as nat, |i: int| dims[i] as usize));
    }
    if dims.len() == 1 {
        reveal_with_fuel(shape::dims_product, 3);
        assert(full.take(0) =~= Seq::<usize>::empty());
        assert(full.take(1) =~= seq![1usize]);
        assert(full.take(1).drop_last() =~= Seq::<usize>::empty());
        assert(full.take(2) =~= full);
        model::lemma_full_shape(dims);
        assert(sizes.take(1) =~= sizes);
        reveal_with_fuel(tables::product, 2);
        assert(tables::product(dims, 0) == 1);
        if is_countable(t) {
            assert(tables::product(dims, 1) <= usize::MAX);
        }
    } else {
        assert(full == sizes);
        if is_countable(t) {
            assert forall|n: int| 0 <= n <= full.len() implies #[trigger] shape::dims_product(
                full.take(n),
            ) <= usize::MAX by {
                assert(tables::product(dims, n) <= usize::MAX);
            }
        } else {
            let n = choose|n: int|
                0 <= n <= dims.len() && #[trigger] tables::product(dims, n) > usize::MAX;
            assert(shape::dims_product(full.take(n)) > usize::MAX);
        }
    }
}

/// An operator without fault can be run, and the other way round.
#[verifier::rlimit(40)]
proof fn lemma_supported(m: Model, k: int)
    requires
        is_complete(m),
        0 <= k < tables::operator_count(m),
    ensures
        m.operator_fault(k) is None <==> is_supported(m, k),
{
    let o = tables::output_id(m, k);
    if is_described(m, o) {
        lemma_countable(tables::tensor(m, o));
    }
}

/// The first operator with a fault, from `i` on.
proof fn lemma_first(m: Model, i: int) -> (k: int)
    requires
        m.operators_fault(i) is Some,
        0 <= i,
    ensures
        i <= k < m.operators().len(),
        m.operator_fault(k) == m.operators_fault(i),
        forall|j: int| i <= j < k ==> #[trigger] m.operator_fault(j) is None,
    decreases m.operators().len() - i,
{
    if m.operator_fault(i) is Some {
        i
    } else {
        lemma_first(m, i + 1)
    }
}

proof fn lemma_none(m: Model, i: int, k: int)
    requires
        m.operators_fault(i) is None,
        i <= k < m.operators().len(),
    ensures
        m.operator_fault(k) is None,
    decreases k - i,
{
    if i < k {
        lemma_none(m, i + 1, k);
    }
}

proof fn lemma_interface(m: Model)
    ensures
        m.interface_fault() is None <==> has_interface(m),
{
    if is_complete(m) {
        let i = tables::model_input_id(m);
        let o = tables::model_output_id(m);
        if is_described(m, i) && is_described(m, o) {
            lemma_countable(tables::tensor(m, i));
            lemma_countable(tables::tensor(m, o));
        }
    }
}

/// A model compiles exactly where its input and output are INT8 tensors and every
/// operator can be run.
pub proof fn law_compile(m: Model, r: Result<Plan, ModelError>)
    requires
        call_ensures(plan::compile, (&m,), r),
    ensures
        r is Ok <==> has_interface(m) && forall|k: int|
            0 <= k < tables::operator_count(m) ==> #[trigger] is_supported(m, k),
{
    lemma_interface(m);
    if has_interface(m) {
        if m.operators_fault(0) is Some {
            let k = lemma_first(m, 0);
            lemma_supported(m, k);
            assert(!is_supported(m, k));
        } else {
            assert forall|k: int|
                0 <= k < tables::operator_count(m) implies #[trigger] is_supported(m, k) by {
                lemma_none(m, 0, k);
                lemma_supported(m, k);
            }
        }
    }
}

/// The tensor that plays a part in operator `k`: the number of its code, and that of the
/// tensor.
pub open spec fn part(m: Model, k: int, role: Role) -> (int, int) {
    let (i, w, o) = (
        tables::input_id(m, k, 0),
        tables::input_id(m, k, 1),
        tables::output_id(m, k),
    );
    match role {
        Role::Conv2dInput => (3, i),
        Role::Conv2dWeights => (3, w),
        Role::Conv2dOutput => (3, o),
        Role::DepthwiseConv2dInput => (4, i),
        Role::DepthwiseConv2dWeights => (4, w),
        Role::DepthwiseConv2dOutput => (4, o),
        Role::FullyConnectedInput => (9, i),
        Role::FullyConnectedWeights => (9, w),
        Role::FullyConnectedOutput => (9, o),
        Role::PoolInput => (if tables::code(m, k) == 1 {
            1
        } else {
            17
        }, i),
        Role::PoolOutput => (if tables::code(m, k) == 1 {
            1
        } else {
            17
        }, o),
        Role::SoftmaxInput => (25, i),
        Role::SoftmaxOutput => (25, o),
        Role::AddInput1 => (0, i),
        Role::AddInput2 => (0, w),
        Role::AddOutput => (0, o),
        _ => (-1, -1),
    }
}

/// The tensor that plays a part in the model, in its operator `k` or as its input or
/// output.
pub open spec fn plays(m: Model, k: int, role: Role, id: int) -> bool {
    match role {
        Role::ModelInput => id == tables::model_input_id(m),
        Role::ModelOutput => id == tables::model_output_id(m),
        _ => part(m, k, role) == (tables::code(m, k), id),
    }
}

/// The codes of padding and activation of operator `k`, where its options have them.
pub open spec fn option_codes(m: Model, k: int) -> (Option<i8>, Option<i8>) {
    match tables::operator(m, k).options {
        Options::Conv2d { padding, activation, .. } => (Some(padding), Some(activation)),
        Options::DepthwiseConv2d { padding, activation, .. } => (Some(padding), Some(activation)),
        Options::Pool2d { padding, activation, .. } => (Some(padding), Some(activation)),
        Options::FullyConnected { activation } => (None, Some(activation)),
        Options::Add { activation } => (None, Some(activation)),
        _ => (None, None),
    }
}

/// The options of operator `k` are of the kind that its code asks for.
pub open spec fn has_options(m: Model, k: int) -> bool {
    let code = tables::code(m, k);
    match tables::operator(m, k).options {
        Options::Conv2d { .. } => code == 3,
        Options::DepthwiseConv2d { .. } => code == 4,
        Options::FullyConnected { .. } => code == 9,
        Options::Pool2d { .. } => code == 1 || code == 17,
        Options::Softmax { .. } => code == 25,
        Options::Add { .. } => code == 0,
        Options::Other => false,
    }
}

/// Something that operator `k` needs is not there, or its output cannot be counted.
pub open spec fn is_lacking(m: Model, k: int) -> bool {
    let code = tables::code(m, k);
    let weighted = code == 3 || code == 4 || code == 9;
    let (i, w, o) = (
        tables::input_id(m, k, 0),
        tables::input_id(m, k, 1),
        tables::output_id(m, k),
    );
    ||| m.operator_codes is None
    ||| tables::operator(m, k).opcode_index >= m.operator_codes->0@.len()
    ||| !has_tensors(
        m,
        k,
        if weighted || code == 0 {
            2
        } else {
            1
        },
    )
    ||| code != 22 && !is_described(m, i)
    ||| (weighted || code == 0) && !is_described(m, w)
    ||| !is_described(m, o)
    ||| !is_countable(tables::tensor(m, o))
    ||| weighted && !has_buffer(m, w)
    ||| weighted && tables::operator(m, k).inputs->0@.len() > 2 && tables::operator(
        m,
        k,
    ).inputs->0@[2] >= 0 && !has_buffer(m, tables::input_id(m, k, 2))
    ||| code != 22 && !has_options(m, k)
}

/// What an error says of a model, where operator `k` is the one that it speaks of.
pub open spec fn is_true(m: Model, k: int, e: ModelError) -> bool {
    match e {
        ModelError::Malformed => is_lacking(m, k),
        ModelError::NotInt8 { role, tensor_type } => exists|id: int| #[trigger]
            plays(m, k, role, id) && is_described(m, id) && tensor_type == tables::tensor(
                m,
                id,
            ).tensor_type && tensor_type != 9,
        ModelError::WrongRank { role, rank, shape } => exists|id: int| #[trigger]
            plays(m, k, role, id) && is_described(m, id) && ({
                let dims = tables::tensor(m, id).shape->0@;
                &&& if role == Role::FullyConnectedWeights || role == Role::SoftmaxInput {
                    rank == 2 && dims.len() != 1 && dims.len() != 2
                } else {
                    rank == 4 && dims.len() != 4
                }
                &&& dims.len() != 1 ==> shape@ =~= Seq::new(
                    dims.len(),
                    |i: int| dims[i] as usize,
                )
                &&& dims.len() == 1 ==> shape@ =~= seq![1usize, dims[0] as usize]
            }),
        ModelError::UnsupportedOperator { operator } => {
            &&& operator == tables::code(m, k)
            &&& operator != 0 && operator != 1 && operator != 3 && operator != 4 && operator != 9
                && operator != 17 && operator != 22 && operator != 25
        },
        ModelError::UnsupportedActivation { activation } => option_codes(m, k).1 == Some(activation)
            && !is_activation(activation),
        ModelError::UnsupportedPadding { padding } => option_codes(m, k).0 == Some(padding)
            && !is_padding(padding),
    }
}

proof fn lemma_rank(m: Model, k: int, role: Role, id: int, rank: usize, e: ModelError)
    requires
        is_complete(m),
        is_described(m, id),
        plays(m, k, role, id),
        rank == (if role == Role::FullyConnectedWeights || role == Role::SoftmaxInput {
            2usize
        } else {
            4
        }),
        model::rank_error(model::info_of(tables::tensor(m, id))->0, rank, role) == Some(e@),
    ensures
        is_true(m, k, e),
{
    model::lemma_full_shape(tables::tensor(m, id).shape->0@);
}

proof fn lemma_type(m: Model, k: int, role: Role, id: int, e: ModelError)
    requires
        is_complete(m),
        is_described(m, id),
        plays(m, k, role, id),
        model::int8_error(model::info_of(tables::tensor(m, id))->0, role) == Some(e@),
    ensures
        is_true(m, k, e),
{
}

/// What an error says of the input and the output of a model.
pub open spec fn is_true_of_interface(m: Model, e: ModelError) -> bool {
    let (i, o) = (tables::model_input_id(m), tables::model_output_id(m));
    match e {
        ModelError::Malformed => {
            ||| !is_complete(m)
            ||| !is_described(m, i)
            ||| !is_described(m, o)
            ||| !is_countable(tables::tensor(m, i))
            ||| !is_countable(tables::tensor(m, o))
        },
        ModelError::NotInt8 { role: Role::ModelInput, tensor_type } => {
            &&& is_described(m, i)
            &&& tensor_type == tables::tensor(m, i).tensor_type
            &&& tensor_type != 9
        },
        ModelError::NotInt8 { role: Role::ModelOutput, tensor_type } => {
            &&& is_described(m, o)
            &&& tensor_type == tables::tensor(m, o).tensor_type
            &&& tensor_type != 9
            &&& tables::tensor(m, i).tensor_type == 9
        },
        _ => false,
    }
}

/// Operator `k` is the first that cannot be run, and what the error says of it is true.
pub open spec fn is_first_fault(m: Model, k: int, e: ModelError) -> bool {
    &&& 0 <= k < tables::operator_count(m)
    &&& forall|j: int| 0 <= j < k ==> #[trigger] is_supported(m, j)
    &&& !is_supported(m, k)
    &&& is_true(m, k, e)
}

/// An error is the answer to a model: it tells what is wrong with its input or output, or
/// else with the first operator that cannot be run.
pub open spec fn is_answer(m: Model, e: ModelError) -> bool {
    if has_interface(m) {
        exists|k: int| #[trigger] is_first_fault(m, k, e)
    } else {
        is_true_of_interface(m, e)
    }
}

#[verifier::rlimit(40)]
proof fn lemma_answer(m: Model, e: ModelError)
    requires
        m.fault() == Some(e@),
    ensures
        is_answer(m, e),
{
    lemma_interface(m);
    if has_interface(m) {
        let k = lemma_first(m, 0);
        lemma_supported(m, k);
        assert forall|j: int| 0 <= j < k implies #[trigger] is_supported(m, j) by {
            lemma_supported(m, j);
            assert(m.operator_fault(j) is None);
        }
        if e@ is NotInt8 {
            let role = e@->NotInt8_role;
            let id = part(m, k, role).1;
            assert(plays(m, k, role, id));
            lemma_type(m, k, role, id, e);
        } else if e@ is WrongRank {
            let role = e@->WrongRank_role;
            let id = part(m, k, role).1;
            assert(plays(m, k, role, id));
            lemma_rank(m, k, role, id, e@->WrongRank_rank, e);
        }
        if is_described(m, tables::output_id(m, k)) {
            lemma_countable(tables::tensor(m, tables::output_id(m, k)));
        }
        assert(is_first_fault(m, k, e));
    } else if is_complete(m) {
        let (i, o) = (tables::model_input_id(m), tables::model_output_id(m));
        if is_described(m, i) && is_described(m, o) {
            lemma_countable(tables::tensor(m, i));
            lemma_countable(tables::tensor(m, o));
        }
    }
}

/// A model is refused for the first thing that stands in the way: its input and output,
/// then its operators one after the other. What the error says is true of it.
pub proof fn law_refusal(m: Model, e: ModelError)
    requires
        call_ensures(plan::compile, (&m,), Err(e)),
    ensures
        is_answer(m, e),
{
    lemma_answer(m, e);
}

/// A file is unreadable where its tables cannot be read; otherwise it is answered as its
/// model is.
pub proof fn law_load(
    bytes: &[u8],
    well_formed: bool,
    r: Result<Plan, FileError>,
    read: Option<Model>,
)
    requires
        call_ensures(load::load, (bytes, well_formed), r),
        call_ensures(tflite::read_model, (bytes, well_formed), read),
    ensures
        read is None <==> r == Err::<Plan, FileError>(FileError::Unreadable),
        read matches Some(m) ==> {
            &&& r is Ok <==> has_interface(m) && forall|k: int|
                0 <= k < tables::operator_count(m) ==> #[trigger] is_supported(m, k)
            &&& r matches Err(FileError::Model(e)) ==> is_answer(m, e)
        },
{
    if let Some(m) = read {
        lemma_interface(m);
        if let Err(FileError::Model(e)) = r {
            lemma_answer(m, e);
        }
        if has_interface(m) {
            if m.operators_fault(0) is Some {
                let k = lemma_first(m, 0);
                lemma_supported(m, k);
                assert(!is_supported(m, k));
            } else {
                assert forall|k: int|
                    0 <= k < tables::operator_count(m) implies #[trigger] is_supported(m, k) by {
                    lemma_none(m, 0, k);
                    lemma_supported(m, k);
                }
            }
        }
    }
}

} // verus!
