//! From the bytes of a model file to the layers that it runs.
use crate::emit;
use crate::emit::Graph;
use crate::layer::{Layer, Plan};
use crate::model;
use crate::model::{Buffer, Model, ModelError, Operator, Tensor};
use crate::plan;
use crate::tflite;
use vstd::prelude::*;

verus! {

/// Why a file cannot be run.
#[derive(Debug, PartialEq, Eq)]
pub enum FileError {
    /// The file is not well formed, or a table leads outside it.
    Unreadable,
    /// The file holds the tables of a model, which cannot be run.
    Model(ModelError),
}

/// Reads the plan of a model from the bytes of its file.
///
/// `well_formed` is the verdict of the flatbuffers verifier on the file.
pub fn load(bytes: &[u8], well_formed: bool) -> (r: Result<Plan, FileError>)
    ensures
        match r {
            Ok(plan) => {
                &&& well_formed && tflite::model_ok(bytes@)
                &&& exists|model: Model| #[trigger] tflite::model_is(bytes@, model)
                &&& forall|model: Model| #[trigger]
                    tflite::model_is(bytes@, model) ==> model.fault() is None && model.planned(plan)
            },
            Err(FileError::Model(e)) => {
                &&& well_formed && tflite::model_ok(bytes@)
                &&& exists|model: Model| #[trigger] tflite::model_is(bytes@, model)
                &&& forall|model: Model| #[trigger]
                    tflite::model_is(bytes@, model) ==> model.fault() == Some(e@)
            },
            Err(FileError::Unreadable) => !(well_formed && tflite::model_ok(bytes@)),
        },
{
    match tflite::read_model(bytes, well_formed) {
        Some(model) => {
            let r = plan::compile(&model);
            proof {
                assert forall|other: Model| #[trigger] tflite::model_is(bytes@, other) implies {
                    &&& other.fault() == model.fault()
                    &&& r matches Ok(plan) ==> other.planned(plan) == model.planned(plan)
                } by {
                    lemma_reading_is_unique(bytes@, model, other);
                }
            }
            match r {
                Ok(plan) => Ok(plan),
                Err(e) => Err(FileError::Model(e)),
            }
        },
        None => Err(FileError::Unreadable),
    }
}

/// Two readings of a tensor table agree in all that the layers need.
proof fn lemma_tensor_unique(b: Seq<u8>, t: int, first: Tensor, second: Tensor)
    requires
        tflite::tensor_is(b, t, first),
        tflite::tensor_is(b, t, second),
    ensures
        model::info_of(first) == model::info_of(second),
        first.buffer == second.buffer,
        first.tensor_type == second.tensor_type,
{
}

/// Two graphs agree in all that the layers need.
spec fn graphs_agree(first: Graph<'_>, second: Graph<'_>) -> bool {
    &&& first.input_tensor_id == second.input_tensor_id
    &&& first.output_tensor_id == second.output_tensor_id
    &&& first.tensors@.len() == second.tensors@.len()
    &&& forall|id: usize| #[trigger] first.info(id) == second.info(id)
    &&& forall|id: usize| (#[trigger] first.buffer(id) is Some) == (second.buffer(id) is Some)
    &&& forall|id: usize|
        #![trigger first.buffer(id)]
        #![trigger second.buffer(id)]
        first.buffer(id) is Some ==> model::bytes_of(first.buffer(id)->0) == model::bytes_of(
            second.buffer(id)->0,
        )
}

/// Two operators agree in all that the layers need.
spec fn operators_agree(first: Operator, second: Operator) -> bool {
    &&& first.opcode_index == second.opcode_index
    &&& first.input_count() == second.input_count()
    &&& forall|k: int|
        0 <= k < first.input_count() ==> #[trigger] first.input_id(k) == second.input_id(k)
    &&& first.bias_id() == second.bias_id()
    &&& first.has_output() == second.has_output()
    &&& first.has_output() ==> first.output_id() == second.output_id()
    &&& first.options == second.options
}

proof fn lemma_operator_unique(b: Seq<u8>, t: int, first: Operator, second: Operator)
    requires
        tflite::operator_is(b, t, first),
        tflite::operator_is(b, t, second),
    ensures
        operators_agree(first, second),
{
}

/// What agrees gives the same fault.
proof fn lemma_fault_agrees(
    g: Graph<'_>,
    h: Graph<'_>,
    code: i32,
    first: Operator,
    second: Operator,
)
    requires
        graphs_agree(g, h),
        operators_agree(first, second),
    ensures
        plan::layer_fault(g, code, first) == plan::layer_fault(h, code, second),
{
    if first.input_count() >= 1 {
        assert(first.input_id(0) == second.input_id(0));
        assert(g.info(first.input_id(0)) == h.info(first.input_id(0)));
    }
    if first.input_count() >= 2 {
        assert(first.input_id(1) == second.input_id(1));
        assert(g.info(first.input_id(1)) == h.info(first.input_id(1)));
        assert((g.buffer(first.input_id(1)) is Some) == (h.buffer(first.input_id(1)) is Some));
    }
    if first.has_output() {
        assert(g.info(first.output_id()) == h.info(first.output_id()));
    }
    assert(emit::bias_fault(g, first.bias_id()) == emit::bias_fault(h, second.bias_id()));
}

/// What agrees gives the same layers.
proof fn lemma_layer_agrees(
    g: Graph<'_>,
    h: Graph<'_>,
    code: i32,
    first: Operator,
    second: Operator,
    layer: Layer,
)
    requires
        graphs_agree(g, h),
        operators_agree(first, second),
        plan::layer_fault(g, code, first) is None,
    ensures
        plan::layer_holds(g, code, first, layer) == plan::layer_holds(h, code, second, layer),
{
    lemma_fault_agrees(g, h, code, first, second);
    if first.input_count() >= 1 {
        assert(first.input_id(0) == second.input_id(0));
        assert(g.info(first.input_id(0)) == h.info(first.input_id(0)));
    }
    if first.input_count() >= 2 {
        assert(first.input_id(1) == second.input_id(1));
        assert(g.info(first.input_id(1)) == h.info(first.input_id(1)));
        assert(forall|w: Seq<i8>|
            emit::weights_hold(g, first, w) == emit::weights_hold(h, second, w));
    }
    if first.has_output() {
        assert(g.info(first.output_id()) == h.info(first.output_id()));
    }
    assert(forall|bias: Option<Vec<i32>>|
        emit::bias_holds(g, first.bias_id(), bias) == emit::bias_holds(h, second.bias_id(), bias));
}

proof fn lemma_buffer_unique(b: Seq<u8>, t: int, first: Buffer, second: Buffer)
    requires
        tflite::buffer_is(b, t, first),
        tflite::buffer_is(b, t, second),
    ensures
        model::bytes_of(first) == model::bytes_of(second),
{
}

/// Two readings of a file agree in the graph that is run.
proof fn lemma_graph_unique(b: Seq<u8>, first: Model, second: Model)
    requires
        tflite::model_is(b, first),
        tflite::model_is(b, second),
        first.complete(),
    ensures
        second.complete(),
        graphs_agree(first.graph(), second.graph()),
        first.operators().len() == second.operators().len(),
        forall|i: int|
            0 <= i < first.operators().len() ==> operators_agree(
                #[trigger] first.operators()[i],
                second.operators()[i],
            ),
{
    let root = tflite::target(b, 0)->0;
    let graphs = tflite::span_field(b, root, 2, 4)->0->0;
    let t = tflite::table_at(b, graphs, 0);
    let p = first.primary();
    let q = second.primary();
    assert(p == first.subgraphs->0@[0]);
    assert(q == second.subgraphs->0@[0]);
    assert(tflite::graph_is(b, t, p));
    assert(tflite::graph_is(b, t, q));
    let g = first.graph();
    let h = second.graph();
    let tensors = tflite::span_field(b, t, 0, 4)->0->0;
    let buffers = tflite::span_field(b, root, 4, 4)->0->0;
    assert forall|id: usize| id < g.tensors@.len() implies {
        &&& model::info_of(#[trigger] g.tensors@[id as int]) == model::info_of(
            h.tensors@[id as int],
        )
        &&& g.tensors@[id as int].buffer == h.tensors@[id as int].buffer
    } by {
        lemma_tensor_unique(
            b,
            tflite::table_at(b, tensors, id as int),
            g.tensors@[id as int],
            h.tensors@[id as int],
        );
    }
    assert forall|k: int| 0 <= k < g.buffers@.len() implies model::bytes_of(
        #[trigger] g.buffers@[k],
    ) == model::bytes_of(h.buffers@[k]) by {
        lemma_buffer_unique(b, tflite::table_at(b, buffers, k), g.buffers@[k], h.buffers@[k]);
    }
    assert forall|id: usize| #[trigger] g.info(id) == h.info(id) by {
        if id < g.tensors@.len() {
            assert(model::info_of(g.tensors@[id as int]) == model::info_of(h.tensors@[id as int]));
        }
    }
    assert forall|id: usize| (#[trigger] g.buffer(id) is Some) == (h.buffer(id) is Some) && (
    g.buffer(id) is Some ==> model::bytes_of(g.buffer(id)->0) == model::bytes_of(
        h.buffer(id)->0,
    )) by {
        if id < g.tensors@.len() {
            assert(model::info_of(g.tensors@[id as int]) == model::info_of(h.tensors@[id as int]));
        }
    }
    let operators = tflite::span_field(b, t, 3, 4)->0->0;
    assert forall|i: int| 0 <= i < first.operators().len() implies operators_agree(
        #[trigger] first.operators()[i],
        second.operators()[i],
    ) by {
        lemma_operator_unique(
            b,
            tflite::table_at(b, operators, i),
            first.operators()[i],
            second.operators()[i],
        );
    }
}

/// Two readings of a file agree in the codes of the operators.
proof fn lemma_codes_unique(b: Seq<u8>, first: Model, second: Model, i: int)
    requires
        tflite::model_is(b, first),
        tflite::model_is(b, second),
        first.operators()[i].opcode_index == second.operators()[i].opcode_index,
    ensures
        first.has_code(i) == second.has_code(i),
        first.has_code(i) ==> first.code(i) == second.code(i),
{
    let root = tflite::target(b, 0)->0;
    if first.has_code(i) {
        let codes = tflite::span_field(b, root, 1, 4)->0->0;
        let k = first.operators()[i].opcode_index as int;
        assert(tflite::code_is(b, tflite::table_at(b, codes, k), first.operator_codes->0@[k]));
        assert(tflite::code_is(b, tflite::table_at(b, codes, k), second.operator_codes->0@[k]));
    }
}

proof fn lemma_operator_fault_unique(b: Seq<u8>, first: Model, second: Model, i: int)
    requires
        tflite::model_is(b, first),
        tflite::model_is(b, second),
        graphs_agree(first.graph(), second.graph()),
        operators_agree(first.operators()[i], second.operators()[i]),
    ensures
        first.operator_fault(i) == second.operator_fault(i),
{
    lemma_codes_unique(b, first, second, i);
    if first.has_code(i) {
        lemma_fault_agrees(
            first.graph(),
            second.graph(),
            first.code(i),
            first.operators()[i],
            second.operators()[i],
        );
    }
}

/// Operators without distinct faults have no distinct first fault.
proof fn lemma_first_fault(first: Model, second: Model, i: int)
    requires
        first.operators().len() == second.operators().len(),
        0 <= i,
        forall|k: int|
            0 <= k < first.operators().len() ==> #[trigger] first.operator_fault(k)
                == second.operator_fault(k),
    ensures
        first.operators_fault(i) == second.operators_fault(i),
        first.operators_fault(i) is None ==> forall|k: int|
            i <= k < first.operators().len() ==> #[trigger] first.operator_fault(k) is None,
    decreases first.operators().len() - i,
{
    if i < first.operators().len() {
        lemma_first_fault(first, second, i + 1);
        assert(first.operator_fault(i) == second.operator_fault(i));
    }
}

/// A file holds one model: two readings of it have the same fault, and without a
/// fault the same plans.
pub proof fn lemma_reading_is_unique(b: Seq<u8>, first: Model, second: Model)
    requires
        tflite::model_is(b, first),
        tflite::model_is(b, second),
    ensures
        first.fault() == second.fault(),
        first.fault() is None ==> forall|plan: Plan| #[trigger]
            first.planned(plan) == second.planned(plan),
{
    if first.complete() {
        lemma_graph_unique(b, first, second);
        assert forall|k: int| 0 <= k < first.operators().len() implies
            #[trigger] first.operator_fault(k) == second.operator_fault(k) by {
            assert(operators_agree(first.operators()[k], second.operators()[k]));
            lemma_operator_fault_unique(b, first, second, k);
        }
        lemma_first_fault(first, second, 0);
        let g = first.graph();
        let h = second.graph();
        assert(g.info(g.input_tensor_id) == h.info(g.input_tensor_id));
        assert(g.info(g.output_tensor_id) == h.info(g.output_tensor_id));
        if first.fault() is None {
            assert forall|plan: Plan| #[trigger] first.planned(plan) == second.planned(plan) by {
                if plan.layers@.len() == first.operators().len() {
                    assert forall|k: int| 0 <= k < plan.layers@.len() implies plan::layer_holds(
                        g,
                        first.code(k),
                        first.operators()[k],
                        #[trigger] plan.layers@[k],
                    ) == plan::layer_holds(
                        h,
                        second.code(k),
                        second.operators()[k],
                        plan.layers@[k],
                    ) by {
                        assert(first.operator_fault(k) is None);
                        assert(operators_agree(first.operators()[k], second.operators()[k]));
                        lemma_codes_unique(b, first, second, k);
                        lemma_layer_agrees(
                            g,
                            h,
                            first.code(k),
                            first.operators()[k],
                            second.operators()[k],
                            plan.layers@[k],
                        );
                    }
                }
            }
        }
    } else if second.complete() {
        lemma_graph_unique(b, second, first);
    }
}

} // verus!
