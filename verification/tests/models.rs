use ember_rs::backend::KernelBackend;
use ember_rs::layer::{Layer, Plan, Source, Target};
use ember_rs::model::{
    buffer_data, require_i8, shape2, shape4, tensor_i32_data, tensor_i8_data, tensor_info,
    tensor_len, Buffer, Model, ModelError, Operator, OperatorCode, Options, Quantization, Role,
    SubGraph, Tensor,
};
use ember_rs::params::{
    Conv2dParams, DepthwiseConv2dParams, ElementwiseAddParams, FullyConnectedParams, PoolParams,
    SoftmaxParams,
};
use ember_rs::plan::compile;
use ember_rs::pool::PoolKind;
use ember_rs::predict::ScratchQuery;
use ember_rs::reference::RefBackend;
use ember_rs::types::{FusedActivation, KernelError, Padding, QuantParam, Status};

const INT8: i8 = 9;
const INT32: i8 = 2;

fn tensor(shape: &[i32], tensor_type: i8, buffer: u32) -> Tensor {
    Tensor {
        shape: Some(shape.to_vec()),
        tensor_type,
        buffer,
        quantization: Some(Quantization {
            scale: Some(vec![0.5f32.to_bits(), 0.25f32.to_bits()]),
            zero_point: Some(vec![-3, 9]),
        }),
    }
}

fn operator(opcode_index: u32, inputs: &[i32], output: i32, options: Options) -> Operator {
    Operator {
        opcode_index,
        inputs: Some(inputs.to_vec()),
        outputs: Some(vec![output]),
        options,
    }
}

fn code(short: i8, long: i32) -> OperatorCode {
    OperatorCode {
        deprecated_builtin_code: short,
        builtin_code: long,
    }
}

/// A model whose graph is the given tensors and operators, from tensor 0 to
/// `output`.
fn model(
    codes: Vec<OperatorCode>,
    tensors: Vec<Tensor>,
    operators: Vec<Operator>,
    output: i32,
    buffers: Vec<Option<Vec<u8>>>,
) -> Model {
    Model {
        operator_codes: Some(codes),
        subgraphs: Some(vec![SubGraph {
            tensors: Some(tensors),
            inputs: Some(vec![0]),
            outputs: Some(vec![output]),
            operators: Some(operators),
        }]),
        buffers: Some(buffers.into_iter().map(|data| Buffer { data }).collect()),
    }
}

fn fully_connected_model(activation: i8, weights_type: i8) -> Model {
    model(
        vec![code(9, 0)],
        vec![
            tensor(&[1, 2], INT8, 0),
            tensor(&[3, 2], weights_type, 1),
            tensor(&[3], INT32, 2),
            tensor(&[1, 3], INT8, 0),
        ],
        vec![operator(
            0,
            &[0, 1, 2],
            3,
            Options::FullyConnected { activation },
        )],
        3,
        vec![
            None,
            Some(vec![1, 255, 2, 254, 3, 128]),
            Some(vec![1, 0, 0, 0, 255, 255, 255, 255, 0, 1, 0, 0]),
        ],
    )
}

fn error(model: Model) -> ModelError {
    compile(&model).err().unwrap()
}

#[test]
fn tensor_tables_are_read() {
    let info = tensor_info(&tensor(&[4, 5, 6], INT8, 0)).unwrap();
    assert_eq!(info.shape, [4, 5, 6]);
    assert_eq!(info.scale, 0.5f32.to_bits());
    assert_eq!(info.zero_point, -3);
    assert_eq!(tensor_len(&info), Ok(120));

    // A vector is a matrix of one row.
    let info = tensor_info(&tensor(&[7], INT8, 0)).unwrap();
    assert_eq!(info.shape, [1, 7]);
    assert_eq!(tensor_len(&info), Ok(7));
    assert_eq!(shape2(&info, Role::SoftmaxInput), Ok([1, 7]));

    // Scale one and zero point zero stand in for lists that are missing or empty.
    let mut bare = tensor(&[], INT8, 0);
    bare.quantization = Some(Quantization {
        scale: None,
        zero_point: Some(vec![]),
    });
    let info = tensor_info(&bare).unwrap();
    assert_eq!(info.scale, 1.0f32.to_bits());
    assert_eq!(info.zero_point, 0);
    assert_eq!(tensor_len(&info), Ok(1));

    let mut missing = tensor(&[1], INT8, 0);
    missing.quantization = None;
    assert_eq!(tensor_info(&missing).err(), Some(ModelError::Malformed));
    let mut missing = tensor(&[1], INT8, 0);
    missing.shape = None;
    assert_eq!(tensor_info(&missing).err(), Some(ModelError::Malformed));
}

#[test]
fn tensor_properties_are_checked() {
    let info = tensor_info(&tensor(&[2, 3, 4], INT32, 0)).unwrap();
    assert_eq!(
        require_i8(&info, Role::PoolInput),
        Err(ModelError::NotInt8 {
            role: Role::PoolInput,
            tensor_type: INT32,
        })
    );
    assert_eq!(
        shape4(&info, Role::PoolInput),
        Err(ModelError::WrongRank {
            role: Role::PoolInput,
            rank: 4,
            shape: vec![2, 3, 4],
        })
    );
    assert_eq!(
        shape2(&info, Role::AddOutput),
        Err(ModelError::WrongRank {
            role: Role::AddOutput,
            rank: 2,
            shape: vec![2, 3, 4],
        })
    );
    let info = tensor_info(&tensor(&[1, 2, 3, 4], INT8, 0)).unwrap();
    assert_eq!(require_i8(&info, Role::PoolInput), Ok(()));
    assert_eq!(shape4(&info, Role::PoolInput), Ok([1, 2, 3, 4]));
    let info = tensor_info(&tensor(&[-1, 4], INT8, 0)).unwrap();
    assert_eq!(tensor_len(&info), Err(ModelError::Malformed));
}

#[test]
fn buffers_are_read() {
    let buffers = vec![
        Buffer { data: None },
        Buffer {
            data: Some(vec![1, 127, 128, 255]),
        },
        Buffer {
            data: Some(vec![0x78, 0x56, 0x34, 0x12, 0xfe, 0xff, 0xff, 0xff, 9, 9]),
        },
    ];
    assert_eq!(buffer_data(&buffers[0]), []);
    assert_eq!(buffer_data(&buffers[1]), [1, 127, 128, 255]);
    assert_eq!(
        tensor_i8_data(&tensor(&[4], INT8, 1), &buffers),
        Ok(vec![1, 127, -128, -1])
    );
    assert_eq!(
        tensor_i8_data(&tensor(&[4], INT32, 1), &buffers),
        Err(ModelError::NotInt8 {
            role: Role::Constant,
            tensor_type: INT32,
        })
    );
    assert_eq!(
        tensor_i8_data(&tensor(&[4], INT8, 3), &buffers),
        Err(ModelError::Malformed)
    );
    assert_eq!(
        tensor_i32_data(&tensor(&[2], INT32, 2), &buffers),
        Ok(vec![0x1234_5678, -2])
    );
    assert_eq!(
        tensor_i32_data(&tensor(&[2], INT32, 3), &buffers),
        Err(ModelError::Malformed)
    );
    for value in [0, 1, -1, i32::MIN, i32::MAX, 0x0102_0304] {
        let buffers = vec![Buffer {
            data: Some(value.to_le_bytes().to_vec()),
        }];
        assert_eq!(
            tensor_i32_data(&tensor(&[1], INT32, 0), &buffers),
            Ok(vec![value])
        );
    }
}

#[test]
fn a_model_is_compiled() {
    let plan = compile(&fully_connected_model(1, INT8)).unwrap();
    assert_eq!(plan.input_len(), 2);
    assert_eq!(plan.output_len(), 3);
    assert_eq!(plan.input_scale(), 0.5f32.to_bits());
    assert_eq!(plan.input_zero_point(), -3);
    assert_eq!(plan.output_scale(), 0.5f32.to_bits());
    assert_eq!(plan.output_zero_point(), -3);
    assert_eq!(plan.tensor_count, 4);
    assert!(plan.is_resolved());
    match &plan.layers[..] {
        [Layer::FullyConnected(layer)] => {
            assert_eq!(layer.input, Source::Input);
            assert_eq!(layer.output, Target::Output);
            assert_eq!(layer.weights, [1, -1, 2, -2, 3, -128]);
            assert_eq!(layer.weights_shape, [3, 2]);
            assert_eq!(layer.bias, Some(vec![1, -1, 256]));
            assert_eq!(layer.output_depth, 3);
            assert_eq!(layer.activation, FusedActivation::Relu);
        }
        _ => panic!("one fully-connected layer is expected"),
    }
}

#[test]
fn tables_that_are_missing_are_refused() {
    let base = || fully_connected_model(0, INT8);
    let mut m = base();
    m.subgraphs = None;
    assert_eq!(error(m), ModelError::Malformed);
    let mut m = base();
    m.subgraphs = Some(vec![]);
    assert_eq!(error(m), ModelError::Malformed);
    let mut m = base();
    m.buffers = None;
    assert_eq!(error(m), ModelError::Malformed);
    let mut m = base();
    m.operator_codes = None;
    assert_eq!(error(m), ModelError::Malformed);
    let mut m = base();
    m.operator_codes = Some(vec![]);
    assert_eq!(error(m), ModelError::Malformed);

    let edits: [fn(&mut SubGraph); 12] = [
        |g| g.tensors = None,
        |g| g.operators = None,
        |g| g.inputs = None,
        |g| g.inputs = Some(vec![]),
        |g| g.outputs = Some(vec![9]),
        |g| g.inputs = Some(vec![-1]),
        |g| g.operators.as_mut().unwrap()[0].inputs = None,
        |g| g.operators.as_mut().unwrap()[0].inputs = Some(vec![0]),
        |g| g.operators.as_mut().unwrap()[0].inputs = Some(vec![0, 1, 8]),
        |g| g.operators.as_mut().unwrap()[0].outputs = Some(vec![]),
        |g| g.operators.as_mut().unwrap()[0].options = Options::Other,
        |g| g.tensors.as_mut().unwrap()[1].buffer = 3,
    ];
    for edit in edits {
        let mut m = base();
        edit(&mut m.subgraphs.as_mut().unwrap()[0]);
        assert_eq!(error(m), ModelError::Malformed);
    }
}

#[test]
fn what_no_kernel_runs_is_refused() {
    assert_eq!(
        error(fully_connected_model(7, INT8)),
        ModelError::UnsupportedActivation { activation: 7 }
    );
    assert_eq!(
        error(fully_connected_model(0, INT32)),
        ModelError::NotInt8 {
            role: Role::FullyConnectedWeights,
            tensor_type: INT32,
        }
    );

    let mut m = fully_connected_model(0, INT8);
    m.operator_codes = Some(vec![code(39, 0)]);
    assert_eq!(error(m), ModelError::UnsupportedOperator { operator: 39 });
    // The short code 127 refers to the long one.
    let mut m = fully_connected_model(0, INT8);
    m.operator_codes = Some(vec![code(127, 150)]);
    assert_eq!(error(m), ModelError::UnsupportedOperator { operator: 150 });
    let mut m = fully_connected_model(0, INT8);
    m.operator_codes = Some(vec![code(127, 9)]);
    assert!(compile(&m).is_ok());

    let mut m = fully_connected_model(0, INT8);
    m.subgraphs.as_mut().unwrap()[0].tensors.as_mut().unwrap()[0].tensor_type = INT32;
    assert_eq!(
        error(m),
        ModelError::NotInt8 {
            role: Role::ModelInput,
            tensor_type: INT32,
        }
    );
    let mut m = fully_connected_model(0, INT8);
    m.subgraphs.as_mut().unwrap()[0].tensors.as_mut().unwrap()[1].shape = Some(vec![3, 2, 1]);
    assert_eq!(
        error(m),
        ModelError::WrongRank {
            role: Role::FullyConnectedWeights,
            rank: 2,
            shape: vec![3, 2, 1],
        }
    );
}

fn image_model(padding: i8, activation: i8) -> Model {
    let options = Options::Conv2d {
        padding,
        stride_w: 1,
        stride_h: 2,
        activation,
        dilation_w_factor: 1,
        dilation_h_factor: 1,
    };
    let pool = Options::Pool2d {
        padding: 1,
        stride_w: 3,
        stride_h: 4,
        filter_width: 5,
        filter_height: 6,
        activation: 4,
    };
    model(
        vec![code(3, 0), code(17, 0), code(22, 0), code(0, 0), code(25, 0)],
        vec![
            tensor(&[1, 4, 4, 1], INT8, 0),
            tensor(&[2, 1, 1, 1], INT8, 1),
            tensor(&[1, 2, 4, 2], INT8, 0),
            tensor(&[1, 1, 1, 2], INT8, 0),
            tensor(&[1, 2], INT8, 0),
            tensor(&[1, 2], INT8, 0),
            tensor(&[1, 2], INT8, 0),
        ],
        vec![
            operator(0, &[0, 1, -1], 2, options),
            operator(1, &[2], 3, pool),
            operator(2, &[3, 4], 4, Options::Other),
            operator(3, &[4, 4], 5, Options::Add { activation: 6 }),
            operator(
                4,
                &[5],
                6,
                Options::Softmax {
                    beta: 2.0f32.to_bits(),
                },
            ),
        ],
        6,
        vec![None, Some(vec![1, 2])],
    )
}

#[test]
fn layers_are_read_in_order() {
    let plan = compile(&image_model(0, 3)).unwrap();
    assert!(plan.is_resolved());
    let quant = |q: &QuantParam| (q.scale, q.zero_point);
    match &plan.layers[..] {
        [Layer::Conv2d(c), Layer::Pool(p), Layer::Reshape(r), Layer::Add(a), Layer::Softmax(s)] => {
            assert_eq!(c.input, Source::Input);
            assert_eq!(c.output, Target::Tensor { id: 2, len: 16 });
            assert_eq!(c.weights, [1, 2]);
            assert_eq!(c.bias, None);
            assert_eq!((c.stride_w, c.stride_h), (1, 2));
            assert_eq!(c.padding, Padding::Same);
            assert_eq!(c.activation, FusedActivation::Relu6);
            assert_eq!(quant(&c.weights_quant), (0.5f32.to_bits(), -3));
            assert_eq!(p.kind, PoolKind::Max);
            assert_eq!(p.input, Source::Tensor(2));
            assert_eq!(p.output, Target::Tensor { id: 3, len: 2 });
            assert_eq!((p.stride_w, p.stride_h), (3, 4));
            assert_eq!((p.filter_w, p.filter_h), (5, 6));
            assert_eq!(p.padding, Padding::Valid);
            assert_eq!(p.activation, FusedActivation::Tanh);
            assert_eq!(r.input, Source::Tensor(3));
            assert_eq!(r.output, Target::Tensor { id: 4, len: 2 });
            assert_eq!((a.input1, a.input2), (Source::Tensor(4), Source::Tensor(4)));
            assert_eq!(a.activation, FusedActivation::Sigmoid);
            assert_eq!(s.input, Source::Tensor(5));
            assert_eq!(s.output, Target::Output);
            assert_eq!(s.input_shape, [1, 2]);
            assert_eq!(s.beta, 2.0f32.to_bits());
            assert!(s.exponentials.is_empty());
        }
        _ => panic!("five layers are expected"),
    }
    assert_eq!(
        error(image_model(2, 0)),
        ModelError::UnsupportedPadding { padding: 2 }
    );
    assert_eq!(
        error(image_model(1, -1)),
        ModelError::UnsupportedActivation { activation: -1 }
    );
}

#[test]
fn tensors_that_no_layer_has_written_are_found() {
    let mut m = image_model(0, 0);
    m.subgraphs.as_mut().unwrap()[0].operators.as_mut().unwrap()[1].inputs = Some(vec![4]);
    // Tensor 4 has no shape of rank four.
    assert!(compile(&m).is_err());
    let mut m = image_model(0, 0);
    m.subgraphs.as_mut().unwrap()[0].operators.as_mut().unwrap()[3].inputs = Some(vec![4, 6]);
    assert!(!compile(&m).unwrap().is_resolved());
    let mut m = image_model(0, 0);
    m.subgraphs.as_mut().unwrap()[0].operators.as_mut().unwrap()[3].inputs = Some(vec![4, 5]);
    assert!(!compile(&m).unwrap().is_resolved());
}

#[test]
fn inference_runs_the_layers() {
    let plan = compile(&fully_connected_model(0, INT8)).unwrap();
    let mut output = [0; 3];
    plan.predict_quantized(&mut RefBackend, &[1, 2], &mut output)
        .unwrap();
    // Accumulators over inputs 4 and 5, weights moved by 3: 27, 29 and -602; scaled
    // by one half with ties upward, and moved by -3.
    assert_eq!(output, [4 * 4 + 5 * 2 + 1, 4 * 5 + 5 - 1, 4 * 6 - 5 * 125 + 256]
        .map(|acc: i32| ((acc + 1).div_euclid(2) - 3).clamp(-128, 127) as i8));
}

#[test]
fn inference_refuses_other_lengths() {
    let plan = compile(&fully_connected_model(0, INT8)).unwrap();
    let mut output = [5; 3];
    let refused = Err(KernelError::InvalidShape);
    assert_eq!(
        plan.predict_quantized(&mut RefBackend, &[1], &mut output),
        refused
    );
    assert_eq!(
        plan.predict_quantized(&mut RefBackend, &[1, 2], &mut output[1..]),
        refused
    );
    assert_eq!(output, [5; 3]);
}

#[test]
fn the_stub_refuses_every_operator() {
    let plan = compile(&fully_connected_model(0, INT8)).unwrap();
    let mut output = [5; 3];
    let mut backend = ember_rs::stub::RefBackend;
    assert_eq!(
        plan.predict_quantized(&mut backend, &[1, 2], &mut output),
        Err(KernelError::InternalError)
    );
    assert_eq!(output, [5; 3]);
}

#[test]
fn backends_need_no_scratch_by_default() {
    let plan = compile(&image_model(0, 0)).unwrap();
    assert_eq!(plan.scratch_len::<RefBackend>(), 0);
    assert_eq!(plan.scratch_len::<ember_rs::stub::RefBackend>(), 0);
    assert_eq!(
        RefBackend::conv2d_scratch_size([1; 4], [2; 4], [3; 4]),
        0
    );
    assert_eq!(
        RefBackend::depthwise_conv2d_scratch_size([1; 4], [2; 4], [3; 4]),
        0
    );
    assert_eq!(RefBackend::softmax_scratch_size(9), 0);
}

#[test]
fn layers_ask_for_scratch_by_their_shapes() {
    let plan = compile(&image_model(0, 0)).unwrap();
    match plan.layers[0].scratch_query() {
        ScratchQuery::Conv2d {
            input_shape,
            weights_shape,
            output_shape,
        } => {
            assert_eq!(input_shape, [1, 4, 4, 1]);
            assert_eq!(weights_shape, [2, 1, 1, 1]);
            assert_eq!(output_shape, [1, 2, 4, 2]);
        }
        _ => panic!("the query of a convolution is expected"),
    }
    assert!(matches!(
        plan.layers[1].scratch_query(),
        ScratchQuery::Nothing
    ));
    assert!(matches!(
        plan.layers[4].scratch_query(),
        ScratchQuery::Softmax { num_classes: 2 }
    ));
    assert_eq!(plan.layers[4].scratch_size::<Counter>(), 4);
}

/// A backend that counts calls and writes the call's number.
struct Counter {
    calls: i8,
    scratch: usize,
}

impl Counter {
    fn call(&mut self, output: &mut [i8]) -> Status {
        self.calls += 1;
        output.fill(self.calls);
        Ok(())
    }
}

impl KernelBackend for Counter {
    fn conv2d(&mut self, params: Conv2dParams<'_>) -> Status {
        self.scratch = params.scratch.len();
        self.call(params.output)
    }

    fn depthwise_conv2d(&mut self, params: DepthwiseConv2dParams<'_>) -> Status {
        self.call(params.output)
    }

    fn fully_connected(&mut self, params: FullyConnectedParams<'_>) -> Status {
        self.call(params.output)
    }

    fn avg_pool(&mut self, params: PoolParams<'_>) -> Status {
        self.call(params.output)
    }

    fn max_pool(&mut self, params: PoolParams<'_>) -> Status {
        self.call(params.output)
    }

    fn softmax(&mut self, params: SoftmaxParams<'_>) -> Status {
        assert_eq!(params.input, [3, 3]);
        self.call(params.output)
    }

    fn add(&mut self, params: ElementwiseAddParams<'_>) -> Status {
        assert_eq!(params.input1, [2, 2]);
        assert_eq!(params.input2, [2, 2]);
        self.call(params.output)
    }

    fn conv2d_scratch_size(
        input_shape: [usize; 4],
        _weights_shape: [usize; 4],
        output_shape: [usize; 4],
    ) -> usize {
        input_shape[1] * output_shape[3]
    }

    fn softmax_scratch_size(num_classes: usize) -> usize {
        2 * num_classes
    }
}

fn run_counter(plan: &Plan) -> (Counter, [i8; 2]) {
    let mut backend = Counter {
        calls: 0,
        scratch: 0,
    };
    let mut output = [0; 2];
    let mut scratch = vec![0; plan.scratch_len::<Counter>()];
    plan.predict_quantized_with_scratch(&mut backend, &[0; 16], &mut output, &mut scratch)
        .unwrap();
    (backend, output)
}

#[test]
fn a_backend_can_be_swapped_in() {
    let plan = compile(&image_model(0, 0)).unwrap();
    assert_eq!(plan.scratch_len::<Counter>(), 8);
    let (backend, output) = run_counter(&plan);
    assert_eq!(backend.calls, 4);
    assert_eq!(backend.scratch, 8);
    assert_eq!(output, [4, 4]);
}

#[test]
fn two_runs_agree() {
    let plan = compile(&fully_connected_model(0, INT8)).unwrap();
    let (mut left, mut right) = ([0; 3], [77; 3]);
    plan.predict_quantized(&mut RefBackend, &[-5, 9], &mut left)
        .unwrap();
    plan.predict_quantized(&mut RefBackend, &[-5, 9], &mut right)
        .unwrap();
    assert_eq!(left, right);
}
