//! Reading a model into the layers that it runs.
use crate::emit;
use crate::emit::Graph;
use crate::layer::{Layer, Plan, SoftmaxLayer};
use crate::model;
use crate::model::{Fault, Model, ModelError, Operator, OperatorCode, Role, SubGraph};
use crate::pool::PoolKind;
use crate::single;
use crate::softmax;
use vstd::prelude::*;

verus! {

/// Code of the operator ADD.
pub const OP_ADD: i32 = 0;

/// Code of the operator AVERAGE_POOL_2D.
pub const OP_AVERAGE_POOL_2D: i32 = 1;

/// Code of the operator CONV_2D.
pub const OP_CONV_2D: i32 = 3;

/// Code of the operator DEPTHWISE_CONV_2D.
pub const OP_DEPTHWISE_CONV_2D: i32 = 4;

/// Code of the operator FULLY_CONNECTED.
pub const OP_FULLY_CONNECTED: i32 = 9;

/// Code of the operator MAX_POOL_2D.
pub const OP_MAX_POOL_2D: i32 = 17;

/// Code of the operator RESHAPE.
pub const OP_RESHAPE: i32 = 22;

/// Code of the operator SOFTMAX.
pub const OP_SOFTMAX: i32 = 25;

/// The value of the short code field that refers to the long one.
pub const OP_ESCAPE: i8 = 127;

impl OperatorCode {
    /// The operator that a code table stands for.
    pub open spec fn operator(self) -> i32 {
        if self.deprecated_builtin_code == OP_ESCAPE {
            self.builtin_code
        } else {
            self.deprecated_builtin_code as i32
        }
    }

    /// Reads the operator that a code table stands for.
    pub fn builtin_operator(&self) -> (r: i32)
        ensures
            r == self.operator(),
    {
        if self.deprecated_builtin_code == OP_ESCAPE {
            self.builtin_code
        } else {
            self.deprecated_builtin_code as i32
        }
    }
}

/// The fault of an operator of a known code.
pub open spec fn layer_fault(graph: Graph<'_>, code: i32, operator: Operator) -> Option<Fault> {
    if code == OP_CONV_2D {
        emit::conv2d_fault(graph, operator)
    } else if code == OP_DEPTHWISE_CONV_2D {
        emit::depthwise_conv2d_fault(graph, operator)
    } else if code == OP_FULLY_CONNECTED {
        emit::fully_connected_fault(graph, operator)
    } else if code == OP_AVERAGE_POOL_2D || code == OP_MAX_POOL_2D {
        emit::pool_fault(graph, operator)
    } else if code == OP_SOFTMAX {
        emit::softmax_fault(graph, operator)
    } else if code == OP_ADD {
        emit::add_fault(graph, operator)
    } else if code == OP_RESHAPE {
        emit::reshape_fault(graph, operator)
    } else {
        Some(Fault::UnsupportedOperator { operator: code })
    }
}

/// The layer of an operator of a known code.
pub open spec fn layer_holds(graph: Graph<'_>, code: i32, operator: Operator, layer: Layer) -> bool {
    match layer {
        Layer::Conv2d(l) => code == OP_CONV_2D && emit::conv2d_holds(graph, operator, l),
        Layer::DepthwiseConv2d(l) => code == OP_DEPTHWISE_CONV_2D && emit::depthwise_conv2d_holds(
            graph,
            operator,
            l,
        ),
        Layer::FullyConnected(l) => code == OP_FULLY_CONNECTED && emit::fully_connected_holds(
            graph,
            operator,
            l,
        ),
        Layer::Pool(l) => if code == OP_AVERAGE_POOL_2D {
            emit::pool_holds(graph, operator, PoolKind::Average, l)
        } else {
            code == OP_MAX_POOL_2D && emit::pool_holds(graph, operator, PoolKind::Max, l)
        },
        Layer::Softmax(l) => code == OP_SOFTMAX && emit::softmax_holds(graph, operator, l),
        Layer::Add(l) => code == OP_ADD && emit::add_holds(graph, operator, l),
        Layer::Reshape(l) => code == OP_RESHAPE && emit::reshape_holds(graph, operator, l),
    }
}

/// Reads an operator of a known code.
pub fn emit_layer(graph: &Graph<'_>, code: i32, operator: &Operator) -> (r: Result<
    Layer,
    ModelError,
>)
    ensures
        match r {
            Ok(layer) => {
                &&& layer_fault(*graph, code, *operator) is None
                &&& layer_holds(*graph, code, *operator, layer)
            },
            Err(e) => layer_fault(*graph, code, *operator) == Some(e@),
        },
{
    if code == OP_CONV_2D {
        let layer = emit::emit_conv2d(graph, operator)?;
        Ok(Layer::Conv2d(layer))
    } else if code == OP_DEPTHWISE_CONV_2D {
        let layer = emit::emit_depthwise_conv2d(graph, operator)?;
        Ok(Layer::DepthwiseConv2d(layer))
    } else if code == OP_FULLY_CONNECTED {
        let layer = emit::emit_fully_connected(graph, operator)?;
        Ok(Layer::FullyConnected(layer))
    } else if code == OP_AVERAGE_POOL_2D {
        let layer = emit::emit_pool(graph, operator, PoolKind::Average)?;
        Ok(Layer::Pool(layer))
    } else if code == OP_MAX_POOL_2D {
        let layer = emit::emit_pool(graph, operator, PoolKind::Max)?;
        Ok(Layer::Pool(layer))
    } else if code == OP_SOFTMAX {
        let layer = emit::emit_softmax(graph, operator)?;
        Ok(Layer::Softmax(layer))
    } else if code == OP_ADD {
        let layer = emit::emit_add(graph, operator)?;
        Ok(Layer::Add(layer))
    } else if code == OP_RESHAPE {
        let layer = emit::emit_reshape(graph, operator)?;
        Ok(Layer::Reshape(layer))
    } else {
        Err(ModelError::UnsupportedOperator { operator: code })
    }
}

impl SubGraph {
    /// Everything that a graph needs is there.
    pub open spec fn complete(self) -> bool {
        &&& self.tensors is Some
        &&& self.operators is Some
        &&& self.inputs matches Some(v) && v@.len() > 0
        &&& self.outputs matches Some(v) && v@.len() > 0
    }

    /// Number of the tensor that the graph is given.
    pub open spec fn input_id(self) -> usize {
        self.inputs->0@[0] as usize
    }

    /// Number of the tensor that the graph computes.
    pub open spec fn output_id(self) -> usize {
        self.outputs->0@[0] as usize
    }
}

impl Model {
    /// The graph that is run, and the buffers.
    pub open spec fn complete(self) -> bool {
        &&& self.subgraphs matches Some(v) && v@.len() > 0 && v@[0].complete()
        &&& self.buffers is Some
    }

    /// The graph that is run.
    pub open spec fn primary(self) -> SubGraph {
        self.subgraphs->0@[0]
    }

    /// The operators that are run.
    pub open spec fn operators(self) -> Seq<Operator> {
        self.primary().operators->0@
    }

    /// The graph that is run, as its operators are read.
    pub open spec fn graph(self) -> Graph<'static> {
        Graph {
            tensors: &self.primary().tensors->0,
            buffers: &self.buffers->0,
            input_tensor_id: self.primary().input_id(),
            output_tensor_id: self.primary().output_id(),
        }
    }

    /// The fault of the input or the output of the model.
    pub open spec fn interface_fault(self) -> Option<Fault> {
        if !self.complete() {
            Some(Fault::Malformed)
        } else {
            let graph = self.graph();
            match (graph.info(graph.input_tensor_id), graph.info(graph.output_tensor_id)) {
                (Some(i), Some(o)) => emit::fault_or(
                    model::int8_error(i, Role::ModelInput),
                    emit::fault_or(
                        model::int8_error(o, Role::ModelOutput),
                        emit::unless(i.countable() && o.countable()),
                    ),
                ),
                _ => Some(Fault::Malformed),
            }
        }
    }

    /// The code table of an operator is there.
    pub open spec fn has_code(self, i: int) -> bool {
        self.operator_codes matches Some(codes) && self.operators()[i].opcode_index < codes@.len()
    }

    /// The code of an operator.
    pub open spec fn code(self, i: int) -> i32 {
        self.operator_codes->0@[self.operators()[i].opcode_index as int].operator()
    }

    /// The fault of an operator.
    pub open spec fn operator_fault(self, i: int) -> Option<Fault> {
        if self.has_code(i) {
            layer_fault(self.graph(), self.code(i), self.operators()[i])
        } else {
            Some(Fault::Malformed)
        }
    }

    /// The fault of the first faulty operator from number `i` on.
    pub open spec fn operators_fault(self, i: int) -> Option<Fault>
        decreases self.operators().len() - i,
    {
        if i >= self.operators().len() {
            None
        } else {
            emit::fault_or(self.operator_fault(i), self.operators_fault(i + 1))
        }
    }

    /// Why the model cannot be run, if so.
    pub open spec fn fault(self) -> Option<Fault> {
        emit::fault_or(self.interface_fault(), self.operators_fault(0))
    }

    /// The plan of a model without fault.
    pub open spec fn planned(self, plan: Plan) -> bool {
        let graph = self.graph();
        let i = graph.info(graph.input_tensor_id)->0;
        let o = graph.info(graph.output_tensor_id)->0;
        &&& plan.input_len == i.count()
        &&& plan.input_quant == i.quant()
        &&& plan.output_len == o.count()
        &&& plan.output_quant == o.quant()
        &&& plan.tensor_count == graph.tensors@.len()
        &&& plan.layers@.len() == self.operators().len()
        &&& forall|k: int|
            0 <= k < plan.layers@.len() ==> layer_holds(
                graph,
                self.code(k),
                self.operators()[k],
                #[trigger] plan.layers@[k],
            )
    }
}

/// Reads the plan of a model from its tables.
pub fn compile(model: &Model) -> (r: Result<Plan, ModelError>)
    ensures
        match r {
            Ok(plan) => model.fault() is None && model.planned(plan),
            Err(e) => model.fault() == Some(e@),
        },
{
    let subgraph = match &model.subgraphs {
        Some(subgraphs) => if subgraphs.len() > 0 {
            &subgraphs[0]
        } else {
            return Err(ModelError::Malformed);
        },
        None => {
            return Err(ModelError::Malformed);
        },
    };
    let (tensors, buffers, operators, inputs, outputs) = match (
        &subgraph.tensors,
        &model.buffers,
        &subgraph.operators,
        &subgraph.inputs,
        &subgraph.outputs,
    ) {
        (Some(tensors), Some(buffers), Some(operators), Some(inputs), Some(outputs)) => (
            tensors,
            buffers,
            operators,
            inputs,
            outputs,
        ),
        _ => {
            return Err(ModelError::Malformed);
        },
    };
    if inputs.len() == 0 || outputs.len() == 0 {
        return Err(ModelError::Malformed);
    }
    let graph = Graph {
        tensors,
        buffers,
        input_tensor_id: inputs[0] as usize,
        output_tensor_id: outputs[0] as usize,
    };
    assert(graph == model.graph());
    let input_info = graph.read_info(graph.input_tensor_id)?;
    let output_info = graph.read_info(graph.output_tensor_id)?;
    model::require_i8(&input_info, Role::ModelInput)?;
    model::require_i8(&output_info, Role::ModelOutput)?;
    let input_len: usize = model::tensor_len(&input_info)?;
    let output_len: usize = model::tensor_len(&output_info)?;
    let mut layers: Vec<Layer> = Vec::new();
    let mut i: usize = 0;
    #[verifier::loop_isolation(false)]
    while i < operators.len()
        invariant
            i <= operators@.len(),
            layers@.len() == i,
            model.operators_fault(0) == model.operators_fault(i as int),
            forall|k: int|
                0 <= k < i ==> layer_holds(
                    graph,
                    model.code(k),
                    operators@[k],
                    #[trigger] layers@[k],
                ),
        decreases operators@.len() - i,
    {
        let codes = match &model.operator_codes {
            Some(codes) => codes,
            None => {
                return Err(ModelError::Malformed);
            },
        };
        let index: usize = operators[i].opcode_index as usize;
        if index >= codes.len() {
            return Err(ModelError::Malformed);
        }
        let code: i32 = codes[index].builtin_operator();
        let layer = emit_layer(&graph, code, &operators[i])?;
        layers.push(layer);
        i = i + 1;
    }
    Ok(
        Plan {
            input_len,
            input_quant: input_info.quant(),
            output_len,
            output_quant: output_info.quant(),
            tensor_count: tensors.len(),
            layers,
        },
    )
}

impl Plan {
    /// The arguments at which layer `k` needs the exponential function, if it is a
    /// softmax operation.
    pub fn exponent_arguments(&self, k: usize) -> (r: Option<Vec<u32>>)
        requires
            k < self.layers@.len(),
        ensures
            match (self.layers@[k as int], r) {
                (Layer::Softmax(l), Some(v)) => {
                    &&& v@.len() == 256
                    &&& forall|d: int|
                        0 <= d < 256 ==> single::decode(#[trigger] v@[d])
                            == softmax::exponent_argument(
                            d,
                            l.input_quant.real_scale(),
                            single::decode(l.beta),
                        )
                },
                (Layer::Softmax(_), None) => false,
                (_, r) => r is None,
            },
    {
        match &self.layers[k] {
            Layer::Softmax(l) => Some(softmax::exponent_arguments(l.input_quant, l.beta)),
            _ => None,
        }
    }

    /// Puts the values of the exponential function into layer `k`, and says whether
    /// it is a softmax operation; no other layer takes them.
    pub fn set_exponentials(&mut self, k: usize, values: Vec<u32>) -> (r: bool)
        requires
            k < old(self).layers@.len(),
        ensures
            r == (old(self).layers@[k as int] is Softmax),
            final(self).input_len == old(self).input_len,
            final(self).input_quant == old(self).input_quant,
            final(self).output_len == old(self).output_len,
            final(self).output_quant == old(self).output_quant,
            final(self).tensor_count == old(self).tensor_count,
            final(self).layers@ == match old(self).layers@[k as int] {
                Layer::Softmax(l) => old(self).layers@.update(
                    k as int,
                    Layer::Softmax(SoftmaxLayer { exponentials: values, ..l }),
                ),
                _ => old(self).layers@,
            },
    {
        match &mut self.layers[k] {
            Layer::Softmax(l) => {
                l.exponentials = values;
                true
            },
            _ => false,
        }
    }
}

} // verus!
