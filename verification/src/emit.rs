//! Reading operators of a model into layers.
use crate::layer::{
    AddLayer, Conv2dLayer, DepthwiseConv2dLayer, FullyConnectedLayer, PoolLayer, ReshapeLayer,
    SoftmaxLayer, Source, Target,
};
use crate::model;
use crate::model::{Buffer, Fault, Info, ModelError, Operator, Options, Role, Tensor, TensorInfo};
use crate::pool::PoolKind;
use crate::types::{FusedActivation, Padding};
use vstd::prelude::*;

verus! {

/// The first of two faults, if there is one.
pub open spec fn fault_or(first: Option<Fault>, second: Option<Fault>) -> Option<Fault> {
    match first {
        Some(_) => first,
        None => second,
    }
}

/// The fault of something that must hold of the tables.
pub open spec fn unless(holds: bool) -> Option<Fault> {
    if holds {
        None
    } else {
        Some(Fault::Malformed)
    }
}

/// The fused activation function of a code.
pub open spec fn activation_of(code: i8) -> Option<FusedActivation> {
    if code == 0 {
        Some(FusedActivation::Identity)
    } else if code == 1 {
        Some(FusedActivation::Relu)
    } else if code == 2 {
        Some(FusedActivation::ReluN1To1)
    } else if code == 3 {
        Some(FusedActivation::Relu6)
    } else if code == 4 {
        Some(FusedActivation::Tanh)
    } else if code == 5 {
        Some(FusedActivation::SignBit)
    } else if code == 6 {
        Some(FusedActivation::Sigmoid)
    } else {
        None
    }
}

/// The fault of a code that stands for no activation function.
pub open spec fn activation_fault(code: i8) -> Option<Fault> {
    match activation_of(code) {
        Some(_) => None,
        None => Some(Fault::UnsupportedActivation { activation: code }),
    }
}

/// Reads the code of a fused activation function.
pub fn fused_activation(code: i8) -> (r: Result<FusedActivation, ModelError>)
    ensures
        match r {
            Ok(activation) => activation_of(code) == Some(activation),
            Err(e) => activation_fault(code) == Some(e@),
        },
{
    match code {
        0 => Ok(FusedActivation::Identity),
        1 => Ok(FusedActivation::Relu),
        2 => Ok(FusedActivation::ReluN1To1),
        3 => Ok(FusedActivation::Relu6),
        4 => Ok(FusedActivation::Tanh),
        5 => Ok(FusedActivation::SignBit),
        6 => Ok(FusedActivation::Sigmoid),
        _ => Err(ModelError::UnsupportedActivation { activation: code }),
    }
}

/// The padding strategy of a code.
pub open spec fn padding_of(code: i8) -> Option<Padding> {
    if code == 0 {
        Some(Padding::Same)
    } else if code == 1 {
        Some(Padding::Valid)
    } else {
        None
    }
}

/// The fault of a code that stands for no padding strategy.
pub open spec fn padding_fault(code: i8) -> Option<Fault> {
    match padding_of(code) {
        Some(_) => None,
        None => Some(Fault::UnsupportedPadding { padding: code }),
    }
}

/// Reads the code of a padding strategy.
pub fn padding_mode(code: i8) -> (r: Result<Padding, ModelError>)
    ensures
        match r {
            Ok(padding) => padding_of(code) == Some(padding),
            Err(e) => padding_fault(code) == Some(e@),
        },
{
    match code {
        0 => Ok(Padding::Same),
        1 => Ok(Padding::Valid),
        _ => Err(ModelError::UnsupportedPadding { padding: code }),
    }
}

/// Where the tensor of a number is read.
pub open spec fn source_of(tensor_id: usize, input_tensor_id: usize) -> Source {
    if tensor_id == input_tensor_id {
        Source::Input
    } else {
        Source::Tensor(tensor_id)
    }
}

/// Where the tensor of a number is read.
pub fn tensor_ref(tensor_id: usize, input_tensor_id: usize) -> (r: Source)
    ensures
        r == source_of(tensor_id, input_tensor_id),
{
    if tensor_id == input_tensor_id {
        Source::Input
    } else {
        Source::Tensor(tensor_id)
    }
}

/// Where the tensor of a number is written.
pub open spec fn target_of(tensor_id: usize, output_tensor_id: usize, len: nat) -> Target {
    if tensor_id == output_tensor_id {
        Target::Output
    } else {
        Target::Tensor { id: tensor_id, len: len as usize }
    }
}

/// Where the tensor of a number is written; it is allocated unless it is the
/// output of the model.
pub fn tensor_mut_ref(tensor_id: usize, output_tensor_id: usize, len: usize) -> (r: Target)
    ensures
        r == target_of(tensor_id, output_tensor_id, len as nat),
{
    if tensor_id == output_tensor_id {
        Target::Output
    } else {
        Target::Tensor { id: tensor_id, len }
    }
}

/// A graph as its operators are read.
pub struct Graph<'a> {
    /// The tensors of the graph.
    pub tensors: &'a Vec<Tensor>,
    /// The buffers of the model.
    pub buffers: &'a Vec<Buffer>,
    /// Number of the tensor that the model is given.
    pub input_tensor_id: usize,
    /// Number of the tensor that the model computes.
    pub output_tensor_id: usize,
}

impl<'a> Graph<'a> {
    /// What is known of the tensor of a number, if its tables are there.
    pub open spec fn info(self, id: usize) -> Option<Info> {
        if id < self.tensors@.len() {
            model::info_of(self.tensors@[id as int])
        } else {
            None
        }
    }

    /// The buffer of the tensor of a number, if both are there.
    pub open spec fn buffer(self, id: usize) -> Option<Buffer> {
        if id < self.tensors@.len() {
            model::buffer_of(self.tensors@[id as int], self.buffers@)
        } else {
            None
        }
    }

    /// Looks a tensor up.
    pub fn read_info(&self, id: usize) -> (r: Result<TensorInfo, ModelError>)
        ensures
            match r {
                Ok(info) => self.info(id) == Some(info@),
                Err(e) => e@ == Fault::Malformed && self.info(id) is None,
            },
    {
        if id < self.tensors.len() {
            model::tensor_info(&self.tensors[id])
        } else {
            Err(ModelError::Malformed)
        }
    }

    /// Reads the elements of a constant INT8 tensor.
    fn read_weights(&self, id: usize) -> (r: Result<Vec<i8>, ModelError>)
        requires
            id < self.tensors@.len(),
            self.tensors@[id as int].tensor_type == model::TENSOR_TYPE_INT8,
        ensures
            match r {
                Ok(v) => {
                    &&& self.buffer(id) matches Some(b)
                    &&& v@ == model::i8_elements(model::bytes_of(b))
                },
                Err(e) => e@ == Fault::Malformed && self.buffer(id) is None,
            },
    {
        model::tensor_i8_data(&self.tensors[id], self.buffers)
    }

    /// Reads the bias of an operator, if it has one.
    fn bias(&self, id: Option<usize>) -> (r: Result<Option<Vec<i32>>, ModelError>)
        ensures
            match r {
                Ok(bias) => bias_fault(*self, id) is None && bias_holds(*self, id, bias),
                Err(e) => bias_fault(*self, id) == Some(e@),
            },
    {
        match id {
            Some(id) => {
                if id < self.tensors.len() {
                    let values = model::tensor_i32_data(&self.tensors[id], self.buffers)?;
                    Ok(Some(values))
                } else {
                    Err(ModelError::Malformed)
                }
            },
            None => Ok(None),
        }
    }
}

/// The fault of a bias whose tensor or buffer is missing.
pub open spec fn bias_fault(graph: Graph<'_>, id: Option<usize>) -> Option<Fault> {
    match id {
        Some(id) => unless(graph.buffer(id) is Some),
        None => None,
    }
}

/// The elements of the bias are those of its tensor.
pub open spec fn bias_holds(graph: Graph<'_>, id: Option<usize>, bias: Option<Vec<i32>>) -> bool {
    match (id, bias) {
        (Some(id), Some(v)) => {
            &&& graph.buffer(id) matches Some(b)
            &&& v@ == model::i32_elements(model::bytes_of(b))
        },
        (None, None) => true,
        _ => false,
    }
}

impl Operator {
    /// Number of inputs.
    pub open spec fn input_count(self) -> int {
        match self.inputs {
            Some(v) => v@.len() as int,
            None => 0,
        }
    }

    /// Number of the tensor of one input.
    pub open spec fn input_id(self, k: int) -> usize {
        self.inputs->0@[k] as usize
    }

    /// The operator has an output.
    pub open spec fn has_output(self) -> bool {
        self.outputs matches Some(v) && v@.len() > 0
    }

    /// Number of the tensor of the output.
    pub open spec fn output_id(self) -> usize {
        self.outputs->0@[0] as usize
    }

    /// Number of the tensor of the bias, if there is one.
    pub open spec fn bias_id(self) -> Option<usize> {
        if self.input_count() > 2 && self.inputs->0@[2] >= 0 {
            Some(self.inputs->0@[2] as usize)
        } else {
            None
        }
    }

    /// Reads the number of the tensor of one input.
    fn read_input(&self, k: usize) -> (r: Result<usize, ModelError>)
        ensures
            match r {
                Ok(id) => k < self.input_count() && id == self.input_id(k as int),
                Err(e) => e@ == Fault::Malformed && k >= self.input_count(),
            },
    {
        match &self.inputs {
            Some(inputs) => {
                if k < inputs.len() {
                    Ok(inputs[k] as usize)
                } else {
                    Err(ModelError::Malformed)
                }
            },
            None => Err(ModelError::Malformed),
        }
    }

    /// Reads the number of the tensor of the output.
    fn read_output(&self) -> (r: Result<usize, ModelError>)
        ensures
            match r {
                Ok(id) => self.has_output() && id == self.output_id(),
                Err(e) => e@ == Fault::Malformed && !self.has_output(),
            },
    {
        match &self.outputs {
            Some(outputs) => {
                if outputs.len() > 0 {
                    Ok(outputs[0] as usize)
                } else {
                    Err(ModelError::Malformed)
                }
            },
            None => Err(ModelError::Malformed),
        }
    }

    /// Reads the number of the tensor of the bias, if there is one.
    fn read_bias(&self) -> (r: Option<usize>)
        ensures
            r == self.bias_id(),
    {
        match &self.inputs {
            Some(inputs) => {
                if inputs.len() > 2 && inputs[2] >= 0 {
                    Some(inputs[2] as usize)
                } else {
                    None
                }
            },
            None => None,
        }
    }
}

/// The fault of a weighted operator before its options are read: the operator
/// names an input, weights and an output, all of them INT8 tensors; the elements
/// of the weights and the bias are there; the output can be counted.
pub open spec fn weighted_fault(
    graph: Graph<'_>,
    operator: Operator,
    input: Role,
    weights: Role,
    output: Role,
) -> Option<Fault> {
    if operator.input_count() < 2 || !operator.has_output() {
        Some(Fault::Malformed)
    } else {
        match (
            graph.info(operator.input_id(0)),
            graph.info(operator.input_id(1)),
            graph.info(operator.output_id()),
        ) {
            (Some(i), Some(w), Some(o)) => fault_or(
                model::int8_error(i, input),
                fault_or(
                    model::int8_error(w, weights),
                    fault_or(
                        model::int8_error(o, output),
                        fault_or(
                            unless(graph.buffer(operator.input_id(1)) is Some),
                            fault_or(
                                bias_fault(graph, operator.bias_id()),
                                unless(o.countable()),
                            ),
                        ),
                    ),
                ),
            ),
            _ => Some(Fault::Malformed),
        }
    }
}

/// What is read of every weighted operator.
struct Weighted {
    input: Source,
    input_info: TensorInfo,
    weights: Vec<i8>,
    weights_info: TensorInfo,
    bias: Option<Vec<i32>>,
    output: Target,
    output_len: usize,
    output_info: TensorInfo,
}

impl Weighted {
    spec fn of(self, graph: Graph<'_>, operator: Operator) -> bool {
        &&& operator.input_count() >= 2
        &&& operator.has_output()
        &&& graph.info(operator.input_id(0)) == Some(self.input_info@)
        &&& graph.info(operator.input_id(1)) == Some(self.weights_info@)
        &&& graph.info(operator.output_id()) == Some(self.output_info@)
        &&& self.output_len == self.output_info@.count()
        &&& self.input == source_of(operator.input_id(0), graph.input_tensor_id)
        &&& self.output == target_of(
            operator.output_id(),
            graph.output_tensor_id,
            self.output_info@.count(),
        )
        &&& weights_hold(graph, operator, self.weights@)
        &&& bias_holds(graph, operator.bias_id(), self.bias)
    }
}

/// The elements of the weights are those of their tensor.
pub open spec fn weights_hold(graph: Graph<'_>, operator: Operator, weights: Seq<i8>) -> bool {
    &&& graph.buffer(operator.input_id(1)) matches Some(b)
    &&& weights == model::i8_elements(model::bytes_of(b))
}

fn read_weighted(
    graph: &Graph<'_>,
    operator: &Operator,
    input: Role,
    weights: Role,
    output: Role,
) -> (r: Result<Weighted, ModelError>)
    ensures
        match r {
            Ok(w) => {
                &&& weighted_fault(*graph, *operator, input, weights, output) is None
                &&& w.of(*graph, *operator)
            },
            Err(e) => weighted_fault(*graph, *operator, input, weights, output) == Some(e@),
        },
{
    let input_id: usize = operator.read_input(0)?;
    let weights_id: usize = operator.read_input(1)?;
    let bias_id = operator.read_bias();
    let output_id: usize = operator.read_output()?;
    let input_info = graph.read_info(input_id)?;
    let weights_info = graph.read_info(weights_id)?;
    let output_info = graph.read_info(output_id)?;
    model::require_i8(&input_info, input)?;
    model::require_i8(&weights_info, weights)?;
    model::require_i8(&output_info, output)?;
    let values = graph.read_weights(weights_id)?;
    let bias = graph.bias(bias_id)?;
    let output_len: usize = model::tensor_len(&output_info)?;
    Ok(
        Weighted {
            input: tensor_ref(input_id, graph.input_tensor_id),
            input_info,
            weights: values,
            weights_info,
            bias,
            output: tensor_mut_ref(output_id, graph.output_tensor_id, output_len),
            output_len,
            output_info,
        },
    )
}

/// The fault of a 2D convolution.
pub open spec fn conv2d_fault(graph: Graph<'_>, operator: Operator) -> Option<Fault> {
    fault_or(
        weighted_fault(
            graph,
            operator,
            Role::Conv2dInput,
            Role::Conv2dWeights,
            Role::Conv2dOutput,
        ),
        fault_or(
            model::rank_error(graph.info(operator.input_id(0))->0, 4, Role::Conv2dInput),
            fault_or(
                model::rank_error(graph.info(operator.input_id(1))->0, 4, Role::Conv2dWeights),
                fault_or(
                    model::rank_error(graph.info(operator.output_id())->0, 4, Role::Conv2dOutput),
                    match operator.options {
                        Options::Conv2d { padding, activation, .. } => fault_or(
                            padding_fault(padding),
                            activation_fault(activation),
                        ),
                        _ => Some(Fault::Malformed),
                    },
                ),
            ),
        ),
    )
}

/// The layer of a 2D convolution.
pub open spec fn conv2d_holds(graph: Graph<'_>, operator: Operator, layer: Conv2dLayer) -> bool {
    let i = graph.info(operator.input_id(0))->0;
    let w = graph.info(operator.input_id(1))->0;
    let o = graph.info(operator.output_id())->0;
    &&& layer.input == source_of(operator.input_id(0), graph.input_tensor_id)
    &&& layer.input_shape@ == i.shape
    &&& layer.input_quant == i.quant()
    &&& weights_hold(graph, operator, layer.weights@)
    &&& layer.weights_shape@ == w.shape
    &&& layer.weights_quant == w.quant()
    &&& bias_holds(graph, operator.bias_id(), layer.bias)
    &&& layer.output == target_of(operator.output_id(), graph.output_tensor_id, o.count())
    &&& layer.output_shape@ == o.shape
    &&& layer.output_quant == o.quant()
    &&& operator.options matches Options::Conv2d {
        padding,
        stride_w,
        stride_h,
        activation,
        dilation_w_factor,
        dilation_h_factor,
    } && {
        &&& padding_of(padding) == Some(layer.padding)
        &&& activation_of(activation) == Some(layer.activation)
        &&& layer.stride_w == stride_w
        &&& layer.stride_h == stride_h
        &&& layer.dilation_w_factor == dilation_w_factor
        &&& layer.dilation_h_factor == dilation_h_factor
    }
}

/// Reads a 2D convolution.
pub fn emit_conv2d(graph: &Graph<'_>, operator: &Operator) -> (r: Result<Conv2dLayer, ModelError>)
    ensures
        match r {
            Ok(layer) => {
                &&& conv2d_fault(*graph, *operator) is None
                &&& conv2d_holds(*graph, *operator, layer)
            },
            Err(e) => conv2d_fault(*graph, *operator) == Some(e@),
        },
{
    let w = read_weighted(
        graph,
        operator,
        Role::Conv2dInput,
        Role::Conv2dWeights,
        Role::Conv2dOutput,
    )?;
    let input_shape = model::shape4(&w.input_info, Role::Conv2dInput)?;
    let weights_shape = model::shape4(&w.weights_info, Role::Conv2dWeights)?;
    let output_shape = model::shape4(&w.output_info, Role::Conv2dOutput)?;
    match &operator.options {
        Options::Conv2d {
            padding,
            stride_w,
            stride_h,
            activation,
            dilation_w_factor,
            dilation_h_factor,
        } => {
            let padding = padding_mode(*padding)?;
            let activation = fused_activation(*activation)?;
            Ok(
                Conv2dLayer {
                    input: w.input,
                    input_shape,
                    input_quant: w.input_info.quant(),
                    weights: w.weights,
                    weights_shape,
                    weights_quant: w.weights_info.quant(),
                    bias: w.bias,
                    output: w.output,
                    output_shape,
                    output_quant: w.output_info.quant(),
                    stride_w: *stride_w,
                    stride_h: *stride_h,
                    dilation_w_factor: *dilation_w_factor,
                    dilation_h_factor: *dilation_h_factor,
                    padding,
                    activation,
                },
            )
        },
        _ => Err(ModelError::Malformed),
    }
}

/// The fault of a depthwise 2D convolution.
pub open spec fn depthwise_conv2d_fault(graph: Graph<'_>, operator: Operator) -> Option<Fault> {
    fault_or(
        weighted_fault(
            graph,
            operator,
            Role::DepthwiseConv2dInput,
            Role::DepthwiseConv2dWeights,
            Role::DepthwiseConv2dOutput,
        ),
        fault_or(
            model::rank_error(graph.info(operator.input_id(0))->0, 4, Role::DepthwiseConv2dInput),
            fault_or(
                model::rank_error(
                    graph.info(operator.input_id(1))->0,
                    4,
                    Role::DepthwiseConv2dWeights,
                ),
                fault_or(
                    model::rank_error(
                        graph.info(operator.output_id())->0,
                        4,
                        Role::DepthwiseConv2dOutput,
                    ),
                    match operator.options {
                        Options::DepthwiseConv2d { padding, activation, .. } => fault_or(
                            padding_fault(padding),
                            activation_fault(activation),
                        ),
                        _ => Some(Fault::Malformed),
                    },
                ),
            ),
        ),
    )
}

/// The layer of a depthwise 2D convolution.
pub open spec fn depthwise_conv2d_holds(
    graph: Graph<'_>,
    operator: Operator,
    layer: DepthwiseConv2dLayer,
) -> bool {
    let i = graph.info(operator.input_id(0))->0;
    let w = graph.info(operator.input_id(1))->0;
    let o = graph.info(operator.output_id())->0;
    &&& layer.input == source_of(operator.input_id(0), graph.input_tensor_id)
    &&& layer.input_shape@ == i.shape
    &&& layer.input_quant == i.quant()
    &&& weights_hold(graph, operator, layer.weights@)
    &&& layer.weights_shape@ == w.shape
    &&& layer.weights_quant == w.quant()
    &&& bias_holds(graph, operator.bias_id(), layer.bias)
    &&& layer.output == target_of(operator.output_id(), graph.output_tensor_id, o.count())
    &&& layer.output_shape@ == o.shape
    &&& layer.output_quant == o.quant()
    &&& operator.options matches Options::DepthwiseConv2d {
        padding,
        stride_w,
        stride_h,
        depth_multiplier,
        activation,
        dilation_w_factor,
        dilation_h_factor,
    } && {
        &&& padding_of(padding) == Some(layer.padding)
        &&& activation_of(activation) == Some(layer.activation)
        &&& layer.stride_w == stride_w
        &&& layer.stride_h == stride_h
        &&& layer.dilation_w_factor == dilation_w_factor
        &&& layer.dilation_h_factor == dilation_h_factor
        &&& layer.depth_multiplier == depth_multiplier
    }
}

/// Reads a depthwise 2D convolution.
pub fn emit_depthwise_conv2d(
    graph: &Graph<'_>,
    operator: &Operator,
) -> (r: Result<DepthwiseConv2dLayer, ModelError>)
    ensures
        match r {
            Ok(layer) => {
                &&& depthwise_conv2d_fault(*graph, *operator) is None
                &&& depthwise_conv2d_holds(*graph, *operator, layer)
            },
            Err(e) => depthwise_conv2d_fault(*graph, *operator) == Some(e@),
        },
{
    let w = read_weighted(
        graph,
        operator,
        Role::DepthwiseConv2dInput,
        Role::DepthwiseConv2dWeights,
        Role::DepthwiseConv2dOutput,
    )?;
    let input_shape = model::shape4(&w.input_info, Role::DepthwiseConv2dInput)?;
    let weights_shape = model::shape4(&w.weights_info, Role::DepthwiseConv2dWeights)?;
    let output_shape = model::shape4(&w.output_info, Role::DepthwiseConv2dOutput)?;
    match &operator.options {
        Options::DepthwiseConv2d {
            padding,
            stride_w,
            stride_h,
            depth_multiplier,
            activation,
            dilation_w_factor,
            dilation_h_factor,
        } => {
            let padding = padding_mode(*padding)?;
            let activation = fused_activation(*activation)?;
            Ok(
                DepthwiseConv2dLayer {
                    input: w.input,
                    input_shape,
                    input_quant: w.input_info.quant(),
                    weights: w.weights,
                    weights_shape,
                    weights_quant: w.weights_info.quant(),
                    bias: w.bias,
                    output: w.output,
                    output_shape,
                    output_quant: w.output_info.quant(),
                    stride_w: *stride_w,
                    stride_h: *stride_h,
                    dilation_w_factor: *dilation_w_factor,
                    dilation_h_factor: *dilation_h_factor,
                    depth_multiplier: *depth_multiplier,
                    padding,
                    activation,
                },
            )
        },
        _ => Err(ModelError::Malformed),
    }
}

/// The fault of a fully-connected layer.
pub open spec fn fully_connected_fault(graph: Graph<'_>, operator: Operator) -> Option<Fault> {
    fault_or(
        weighted_fault(
            graph,
            operator,
            Role::FullyConnectedInput,
            Role::FullyConnectedWeights,
            Role::FullyConnectedOutput,
        ),
        fault_or(
            model::rank_error(graph.info(operator.input_id(1))->0, 2, Role::FullyConnectedWeights),
            match operator.options {
                Options::FullyConnected { activation } => activation_fault(activation),
                _ => Some(Fault::Malformed),
            },
        ),
    )
}

/// The layer of a fully-connected operator; its depth is the length of its output.
pub open spec fn fully_connected_holds(
    graph: Graph<'_>,
    operator: Operator,
    layer: FullyConnectedLayer,
) -> bool {
    let i = graph.info(operator.input_id(0))->0;
    let w = graph.info(operator.input_id(1))->0;
    let o = graph.info(operator.output_id())->0;
    &&& layer.input == source_of(operator.input_id(0), graph.input_tensor_id)
    &&& layer.input_quant == i.quant()
    &&& weights_hold(graph, operator, layer.weights@)
    &&& layer.weights_shape@ == w.shape
    &&& layer.weights_quant == w.quant()
    &&& bias_holds(graph, operator.bias_id(), layer.bias)
    &&& layer.output == target_of(operator.output_id(), graph.output_tensor_id, o.count())
    &&& layer.output_depth == o.count()
    &&& layer.output_quant == o.quant()
    &&& operator.options matches Options::FullyConnected { activation } && activation_of(activation)
        == Some(layer.activation)
}

/// Reads a fully-connected layer.
pub fn emit_fully_connected(
    graph: &Graph<'_>,
    operator: &Operator,
) -> (r: Result<FullyConnectedLayer, ModelError>)
    ensures
        match r {
            Ok(layer) => {
                &&& fully_connected_fault(*graph, *operator) is None
                &&& fully_connected_holds(*graph, *operator, layer)
            },
            Err(e) => fully_connected_fault(*graph, *operator) == Some(e@),
        },
{
    let w = read_weighted(
        graph,
        operator,
        Role::FullyConnectedInput,
        Role::FullyConnectedWeights,
        Role::FullyConnectedOutput,
    )?;
    let weights_shape = model::shape2(&w.weights_info, Role::FullyConnectedWeights)?;
    match &operator.options {
        Options::FullyConnected { activation } => {
            let activation = fused_activation(*activation)?;
            Ok(
                FullyConnectedLayer {
                    input: w.input,
                    input_quant: w.input_info.quant(),
                    weights: w.weights,
                    weights_shape,
                    weights_quant: w.weights_info.quant(),
                    bias: w.bias,
                    output: w.output,
                    output_depth: w.output_len,
                    output_quant: w.output_info.quant(),
                    activation,
                },
            )
        },
        _ => Err(ModelError::Malformed),
    }
}

/// The fault of an operator with one input before shapes and options are read:
/// the operator names an input and an output, both of them INT8 tensors, and the
/// output can be counted.
pub open spec fn plain_fault(
    graph: Graph<'_>,
    operator: Operator,
    input: Role,
    output: Role,
) -> Option<Fault> {
    if operator.input_count() < 1 || !operator.has_output() {
        Some(Fault::Malformed)
    } else {
        match (graph.info(operator.input_id(0)), graph.info(operator.output_id())) {
            (Some(i), Some(o)) => fault_or(
                model::int8_error(i, input),
                fault_or(model::int8_error(o, output), unless(o.countable())),
            ),
            _ => Some(Fault::Malformed),
        }
    }
}

/// What is read of an operator with one input.
struct Plain {
    input: Source,
    input_info: TensorInfo,
    output: Target,
    output_info: TensorInfo,
}

fn read_plain(
    graph: &Graph<'_>,
    operator: &Operator,
    input: Role,
    output: Role,
) -> (r: Result<Plain, ModelError>)
    ensures
        match r {
            Ok(p) => {
                &&& plain_fault(*graph, *operator, input, output) is None
                &&& operator.input_count() >= 1
                &&& operator.has_output()
                &&& graph.info(operator.input_id(0)) == Some(p.input_info@)
                &&& graph.info(operator.output_id()) == Some(p.output_info@)
                &&& p.input == source_of(operator.input_id(0), graph.input_tensor_id)
                &&& p.output == target_of(
                    operator.output_id(),
                    graph.output_tensor_id,
                    p.output_info@.count(),
                )
            },
            Err(e) => plain_fault(*graph, *operator, input, output) == Some(e@),
        },
{
    let input_id: usize = operator.read_input(0)?;
    let output_id: usize = operator.read_output()?;
    let input_info = graph.read_info(input_id)?;
    let output_info = graph.read_info(output_id)?;
    model::require_i8(&input_info, input)?;
    model::require_i8(&output_info, output)?;
    let output_len: usize = model::tensor_len(&output_info)?;
    Ok(
        Plain {
            input: tensor_ref(input_id, graph.input_tensor_id),
            input_info,
            output: tensor_mut_ref(output_id, graph.output_tensor_id, output_len),
            output_info,
        },
    )
}

/// The fault of a pooling operation.
pub open spec fn pool_fault(graph: Graph<'_>, operator: Operator) -> Option<Fault> {
    fault_or(
        plain_fault(graph, operator, Role::PoolInput, Role::PoolOutput),
        fault_or(
            model::rank_error(graph.info(operator.input_id(0))->0, 4, Role::PoolInput),
            fault_or(
                model::rank_error(graph.info(operator.output_id())->0, 4, Role::PoolOutput),
                match operator.options {
                    Options::Pool2d { padding, activation, .. } => fault_or(
                        padding_fault(padding),
                        activation_fault(activation),
                    ),
                    _ => Some(Fault::Malformed),
                },
            ),
        ),
    )
}

/// The layer of a pooling operation.
pub open spec fn pool_holds(
    graph: Graph<'_>,
    operator: Operator,
    kind: PoolKind,
    layer: PoolLayer,
) -> bool {
    let i = graph.info(operator.input_id(0))->0;
    let o = graph.info(operator.output_id())->0;
    &&& layer.kind == kind
    &&& layer.input == source_of(operator.input_id(0), graph.input_tensor_id)
    &&& layer.input_shape@ == i.shape
    &&& layer.input_quant == i.quant()
    &&& layer.output == target_of(operator.output_id(), graph.output_tensor_id, o.count())
    &&& layer.output_shape@ == o.shape
    &&& layer.output_quant == o.quant()
    &&& operator.options matches Options::Pool2d {
        padding,
        stride_w,
        stride_h,
        filter_width,
        filter_height,
        activation,
    } && {
        &&& padding_of(padding) == Some(layer.padding)
        &&& activation_of(activation) == Some(layer.activation)
        &&& layer.stride_w == stride_w
        &&& layer.stride_h == stride_h
        &&& layer.filter_w == filter_width
        &&& layer.filter_h == filter_height
    }
}

/// Reads a pooling operation.
pub fn emit_pool(
    graph: &Graph<'_>,
    operator: &Operator,
    kind: PoolKind,
) -> (r: Result<PoolLayer, ModelError>)
    ensures
        match r {
            Ok(layer) => {
                &&& pool_fault(*graph, *operator) is None
                &&& pool_holds(*graph, *operator, kind, layer)
            },
            Err(e) => pool_fault(*graph, *operator) == Some(e@),
        },
{
    let p = read_plain(graph, operator, Role::PoolInput, Role::PoolOutput)?;
    let input_shape = model::shape4(&p.input_info, Role::PoolInput)?;
    let output_shape = model::shape4(&p.output_info, Role::PoolOutput)?;
    match &operator.options {
        Options::Pool2d {
            padding,
            stride_w,
            stride_h,
            filter_width,
            filter_height,
            activation,
        } => {
            let padding = padding_mode(*padding)?;
            let activation = fused_activation(*activation)?;
            Ok(
                PoolLayer {
                    kind,
                    input: p.input,
                    input_shape,
                    input_quant: p.input_info.quant(),
                    output: p.output,
                    output_shape,
                    output_quant: p.output_info.quant(),
                    stride_w: *stride_w,
                    stride_h: *stride_h,
                    filter_w: *filter_width,
                    filter_h: *filter_height,
                    padding,
                    activation,
                },
            )
        },
        _ => Err(ModelError::Malformed),
    }
}

/// The fault of a softmax operation.
pub open spec fn softmax_fault(graph: Graph<'_>, operator: Operator) -> Option<Fault> {
    fault_or(
        plain_fault(graph, operator, Role::SoftmaxInput, Role::SoftmaxOutput),
        fault_or(
            model::rank_error(graph.info(operator.input_id(0))->0, 2, Role::SoftmaxInput),
            unless(operator.options is Softmax),
        ),
    )
}

/// The layer of a softmax operation.
pub open spec fn softmax_holds(graph: Graph<'_>, operator: Operator, layer: SoftmaxLayer) -> bool {
    let i = graph.info(operator.input_id(0))->0;
    let o = graph.info(operator.output_id())->0;
    &&& layer.input == source_of(operator.input_id(0), graph.input_tensor_id)
    &&& layer.input_shape@ == i.shape
    &&& layer.input_quant == i.quant()
    &&& layer.output == target_of(operator.output_id(), graph.output_tensor_id, o.count())
    &&& layer.output_quant == o.quant()
    &&& operator.options matches Options::Softmax { beta } && layer.beta == beta
    &&& layer.exponentials@.len() == 0
}

/// Reads a softmax operation.
pub fn emit_softmax(graph: &Graph<'_>, operator: &Operator) -> (r: Result<SoftmaxLayer, ModelError>)
    ensures
        match r {
            Ok(layer) => {
                &&& softmax_fault(*graph, *operator) is None
                &&& softmax_holds(*graph, *operator, layer)
            },
            Err(e) => softmax_fault(*graph, *operator) == Some(e@),
        },
{
    let p = read_plain(graph, operator, Role::SoftmaxInput, Role::SoftmaxOutput)?;
    let input_shape = model::shape2(&p.input_info, Role::SoftmaxInput)?;
    match &operator.options {
        Options::Softmax { beta } => Ok(
            SoftmaxLayer {
                input: p.input,
                input_shape,
                input_quant: p.input_info.quant(),
                output: p.output,
                output_quant: p.output_info.quant(),
                beta: *beta,
                exponentials: Vec::new(),
            },
        ),
        _ => Err(ModelError::Malformed),
    }
}

/// The fault of an element-wise addition.
pub open spec fn add_fault(graph: Graph<'_>, operator: Operator) -> Option<Fault> {
    if operator.input_count() < 2 || !operator.has_output() {
        Some(Fault::Malformed)
    } else {
        match (
            graph.info(operator.input_id(0)),
            graph.info(operator.input_id(1)),
            graph.info(operator.output_id()),
        ) {
            (Some(i1), Some(i2), Some(o)) => fault_or(
                model::int8_error(i1, Role::AddInput1),
                fault_or(
                    model::int8_error(i2, Role::AddInput2),
                    fault_or(
                        model::int8_error(o, Role::AddOutput),
                        fault_or(
                            unless(o.countable()),
                            match operator.options {
                                Options::Add { activation } => activation_fault(activation),
                                _ => Some(Fault::Malformed),
                            },
                        ),
                    ),
                ),
            ),
            _ => Some(Fault::Malformed),
        }
    }
}

/// The layer of an element-wise addition.
pub open spec fn add_holds(graph: Graph<'_>, operator: Operator, layer: AddLayer) -> bool {
    let i1 = graph.info(operator.input_id(0))->0;
    let i2 = graph.info(operator.input_id(1))->0;
    let o = graph.info(operator.output_id())->0;
    &&& layer.input1 == source_of(operator.input_id(0), graph.input_tensor_id)
    &&& layer.input1_quant == i1.quant()
    &&& layer.input2 == source_of(operator.input_id(1), graph.input_tensor_id)
    &&& layer.input2_quant == i2.quant()
    &&& layer.output == target_of(operator.output_id(), graph.output_tensor_id, o.count())
    &&& layer.output_quant == o.quant()
    &&& operator.options matches Options::Add { activation } && activation_of(activation) == Some(
        layer.activation,
    )
}

/// Reads an element-wise addition.
pub fn emit_add(graph: &Graph<'_>, operator: &Operator) -> (r: Result<AddLayer, ModelError>)
    ensures
        match r {
            Ok(layer) => {
                &&& add_fault(*graph, *operator) is None
                &&& add_holds(*graph, *operator, layer)
            },
            Err(e) => add_fault(*graph, *operator) == Some(e@),
        },
{
    let input1_id: usize = operator.read_input(0)?;
    let input2_id: usize = operator.read_input(1)?;
    let output_id: usize = operator.read_output()?;
    let input1_info = graph.read_info(input1_id)?;
    let input2_info = graph.read_info(input2_id)?;
    let output_info = graph.read_info(output_id)?;
    model::require_i8(&input1_info, Role::AddInput1)?;
    model::require_i8(&input2_info, Role::AddInput2)?;
    model::require_i8(&output_info, Role::AddOutput)?;
    let output_len: usize = model::tensor_len(&output_info)?;
    match &operator.options {
        Options::Add { activation } => {
            let activation = fused_activation(*activation)?;
            Ok(
                AddLayer {
                    input1: tensor_ref(input1_id, graph.input_tensor_id),
                    input1_quant: input1_info.quant(),
                    input2: tensor_ref(input2_id, graph.input_tensor_id),
                    input2_quant: input2_info.quant(),
                    output: tensor_mut_ref(output_id, graph.output_tensor_id, output_len),
                    output_quant: output_info.quant(),
                    activation,
                },
            )
        },
        _ => Err(ModelError::Malformed),
    }
}

/// The fault of a reshape operation.
pub open spec fn reshape_fault(graph: Graph<'_>, operator: Operator) -> Option<Fault> {
    if operator.input_count() < 1 || !operator.has_output() {
        Some(Fault::Malformed)
    } else {
        match graph.info(operator.output_id()) {
            Some(o) => unless(o.countable()),
            None => Some(Fault::Malformed),
        }
    }
}

/// The layer of a reshape operation.
pub open spec fn reshape_holds(graph: Graph<'_>, operator: Operator, layer: ReshapeLayer) -> bool {
    let o = graph.info(operator.output_id())->0;
    &&& layer.input == source_of(operator.input_id(0), graph.input_tensor_id)
    &&& layer.output == target_of(operator.output_id(), graph.output_tensor_id, o.count())
}

/// Reads a reshape operation.
pub fn emit_reshape(graph: &Graph<'_>, operator: &Operator) -> (r: Result<ReshapeLayer, ModelError>)
    ensures
        match r {
            Ok(layer) => {
                &&& reshape_fault(*graph, *operator) is None
                &&& reshape_holds(*graph, *operator, layer)
            },
            Err(e) => reshape_fault(*graph, *operator) == Some(e@),
        },
{
    let input_id: usize = operator.read_input(0)?;
    let output_id: usize = operator.read_output()?;
    let output_info = graph.read_info(output_id)?;
    let output_len: usize = model::tensor_len(&output_info)?;
    Ok(
        ReshapeLayer {
            input: tensor_ref(input_id, graph.input_tensor_id),
            output: tensor_mut_ref(output_id, graph.output_tensor_id, output_len),
        },
    )
}

} // verus!
