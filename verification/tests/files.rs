use ember_rs::layer::Layer;
use ember_rs::load::{load, FileError};
use ember_rs::model::{Model, ModelError, Options};
use ember_rs::plan::compile;
use ember_rs::reference::RefBackend;
use ember_rs::tflite::read_model;
use flatbuffers::{
    FlatBufferBuilder, TableFinishedWIPOffset, VOffsetT, Verifier, VerifierOptions, WIPOffset,
};

type Table = WIPOffset<TableFinishedWIPOffset>;

fn slot(field: VOffsetT) -> VOffsetT {
    4 + 2 * field
}

/// A table whose fields are set by `fields`.
fn table<'a>(
    b: &mut FlatBufferBuilder<'a>,
    fields: impl FnOnce(&mut FlatBufferBuilder<'a>),
) -> Table {
    let start = b.start_table();
    fields(b);
    b.end_table(start)
}

fn tensor(
    b: &mut FlatBufferBuilder<'_>,
    shape: &[i32],
    tensor_type: i8,
    buffer: u32,
    scale: f32,
    zero_point: i64,
) -> Table {
    let shape = b.create_vector(shape);
    let scale = b.create_vector(&[scale]);
    let zero_point = b.create_vector(&[zero_point]);
    let quantization = table(b, |b| {
        b.push_slot_always(slot(2), scale);
        b.push_slot_always(slot(3), zero_point);
    });
    table(b, |b| {
        b.push_slot_always(slot(0), shape);
        b.push_slot(slot(1), tensor_type, 0i8);
        b.push_slot(slot(2), buffer, 0u32);
        b.push_slot_always(slot(4), quantization);
    })
}

fn buffer(b: &mut FlatBufferBuilder<'_>, data: Option<&[u8]>) -> Table {
    let data = data.map(|data| b.create_vector(data));
    table(b, |b| {
        if let Some(data) = data {
            b.push_slot_always(slot(0), data);
        }
    })
}

fn operator(
    b: &mut FlatBufferBuilder<'_>,
    opcode_index: u32,
    inputs: &[i32],
    output: i32,
    options: Option<(u8, Table)>,
) -> Table {
    let inputs = b.create_vector(inputs);
    let outputs = b.create_vector(&[output]);
    table(b, |b| {
        b.push_slot(slot(0), opcode_index, 0u32);
        b.push_slot_always(slot(1), inputs);
        b.push_slot_always(slot(2), outputs);
        if let Some((kind, options)) = options {
            b.push_slot(slot(3), kind, 0u8);
            b.push_slot_always(slot(4), options);
        }
    })
}

/// A file with a fully-connected layer, a reshape, and one operator of each other
/// kind behind them.
fn file() -> Vec<u8> {
    let mut b = FlatBufferBuilder::new();
    let b = &mut b;
    let tensors = [
        tensor(b, &[1, 2], 9, 0, 0.5, -3),
        tensor(b, &[2, 2], 9, 1, 0.25, 0),
        tensor(b, &[2], 2, 2, 1.0, 0),
        tensor(b, &[1, 2], 9, 0, 0.125, 7),
    ];
    let tensors = b.create_vector(&tensors);
    let inputs = b.create_vector(&[0i32]);
    let outputs = b.create_vector(&[3i32]);

    let dense = table(b, |b| b.push_slot(slot(0), 1i8, 0));
    let conv = table(b, |b| {
        b.push_slot(slot(0), 1i8, 0);
        b.push_slot(slot(1), 2i32, 0);
        b.push_slot(slot(2), 3i32, 0);
        b.push_slot(slot(3), 3i8, 0);
    });
    let depthwise = table(b, |b| {
        b.push_slot(slot(1), 4i32, 0);
        b.push_slot(slot(2), 5i32, 0);
        b.push_slot(slot(3), 6i32, 0);
        b.push_slot(slot(4), 1i8, 0);
        b.push_slot(slot(5), 7i32, 1);
        b.push_slot(slot(6), 8i32, 1);
    });
    let pool = table(b, |b| {
        b.push_slot(slot(0), 1i8, 0);
        b.push_slot(slot(1), 1i32, 0);
        b.push_slot(slot(2), 2i32, 0);
        b.push_slot(slot(3), 3i32, 0);
        b.push_slot(slot(4), 4i32, 0);
        b.push_slot(slot(5), -1i8, 0);
    });
    let softmax = table(b, |b| b.push_slot(slot(0), 1.5f32, 0.0));
    let add = table(b, |b| b.push_slot(slot(0), 6i8, 0));
    let operators = [
        operator(b, 0, &[0, 1, 2], 3, Some((8, dense))),
        operator(b, 1, &[3], 3, None),
        operator(b, 2, &[0, 1, -1], 3, Some((1, conv))),
        operator(b, 3, &[0, 1], 3, Some((2, depthwise))),
        operator(b, 4, &[0], 3, Some((5, pool))),
        operator(b, 5, &[0], 3, Some((9, softmax))),
        operator(b, 6, &[0, 0], 3, Some((11, add))),
    ];
    let operators = b.create_vector(&operators);
    let graph = table(b, |b| {
        b.push_slot_always(slot(0), tensors);
        b.push_slot_always(slot(1), inputs);
        b.push_slot_always(slot(2), outputs);
        b.push_slot_always(slot(3), operators);
    });
    let graphs = b.create_vector(&[graph]);

    let codes = [9i8, 22, 3, 4, 17, 25, 127].map(|code| {
        table(b, |b| {
            b.push_slot(slot(0), code, 0);
            b.push_slot(slot(3), if code == 127 { 150i32 } else { 0 }, 0);
        })
    });
    let codes = b.create_vector(&codes);
    let buffers = [
        buffer(b, None),
        buffer(b, Some(&[1, 2, 255, 128])),
        buffer(b, Some(&[4, 0, 0, 0, 252, 255, 255, 255])),
    ];
    let buffers = b.create_vector(&buffers);
    let root = table(b, |b| {
        b.push_slot(slot(0), 3u32, 0);
        b.push_slot_always(slot(1), codes);
        b.push_slot_always(slot(2), graphs);
        b.push_slot_always(slot(4), buffers);
    });
    b.finish(root, Some("TFL3"));
    b.finished_data().to_vec()
}

fn options(model: &Model, index: usize) -> &Options {
    let graph = &model.subgraphs.as_ref().unwrap()[0];
    &graph.operators.as_ref().unwrap()[index].options
}

#[test]
fn tables_are_read_from_a_file() {
    let model = read_model(&file(), true).unwrap();
    let codes = model.operator_codes.as_ref().unwrap();
    assert_eq!(codes.len(), 7);
    assert_eq!(codes[0].deprecated_builtin_code, 9);
    assert_eq!(codes[6].builtin_code, 150);

    let graph = &model.subgraphs.as_ref().unwrap()[0];
    assert_eq!(graph.inputs, Some(vec![0]));
    assert_eq!(graph.outputs, Some(vec![3]));
    let tensors = graph.tensors.as_ref().unwrap();
    assert_eq!(tensors.len(), 4);
    assert_eq!(tensors[1].shape, Some(vec![2, 2]));
    assert_eq!(tensors[1].tensor_type, 9);
    assert_eq!(tensors[1].buffer, 1);
    let quantization = tensors[3].quantization.as_ref().unwrap();
    assert_eq!(quantization.scale, Some(vec![0.125f32.to_bits()]));
    assert_eq!(quantization.zero_point, Some(vec![7]));

    let operators = graph.operators.as_ref().unwrap();
    assert_eq!(operators.len(), 7);
    assert_eq!(operators[2].opcode_index, 2);
    assert_eq!(operators[2].inputs, Some(vec![0, 1, -1]));
    assert_eq!(operators[2].outputs, Some(vec![3]));

    let buffers = model.buffers.as_ref().unwrap();
    assert_eq!(buffers[0].data, None);
    assert_eq!(buffers[1].data, Some(vec![1, 2, 255, 128]));
}

#[test]
fn options_are_read_from_a_file() {
    let model = read_model(&file(), true).unwrap();
    assert!(matches!(
        options(&model, 0),
        Options::FullyConnected { activation: 1 }
    ));
    assert!(matches!(options(&model, 1), Options::Other));
    // The dilation of a convolution is one where the file leaves it out.
    assert!(matches!(
        options(&model, 2),
        Options::Conv2d {
            padding: 1,
            stride_w: 2,
            stride_h: 3,
            activation: 3,
            dilation_w_factor: 1,
            dilation_h_factor: 1,
        }
    ));
    assert!(matches!(
        options(&model, 3),
        Options::DepthwiseConv2d {
            padding: 0,
            stride_w: 4,
            stride_h: 5,
            depth_multiplier: 6,
            activation: 1,
            dilation_w_factor: 7,
            dilation_h_factor: 8,
        }
    ));
    assert!(matches!(
        options(&model, 4),
        Options::Pool2d {
            padding: 1,
            stride_w: 1,
            stride_h: 2,
            filter_width: 3,
            filter_height: 4,
            activation: -1,
        }
    ));
    let beta = 1.5f32.to_bits();
    assert!(matches!(options(&model, 5), Options::Softmax { beta: b } if *b == beta));
    assert!(matches!(
        options(&model, 6),
        Options::Add { activation: 6 }
    ));
}

#[test]
fn a_file_is_compiled_and_run() {
    let mut model = read_model(&file(), true).unwrap();
    let graph = &mut model.subgraphs.as_mut().unwrap()[0];
    graph.operators.as_mut().unwrap().truncate(1);
    let plan = compile(&model).unwrap();
    assert!(plan.is_resolved());
    match &plan.layers[0] {
        Layer::FullyConnected(layer) => {
            assert_eq!(layer.weights, [1, 2, -1, -128]);
            assert_eq!(layer.bias, Some(vec![4, -4]));
        }
        _ => panic!("a fully-connected layer is expected"),
    }
    let mut output = [0; 2];
    plan.predict_quantized(&mut RefBackend, &[5, -6], &mut output)
        .unwrap();
    // 8 * 1 - 3 * 2 + 4 and -8 + 3 * 128 - 4, at scale 0.5 * 0.25 / 0.125.
    assert_eq!(output, [6 + 7, 127]);
}

#[test]
fn a_file_that_is_cut_short_is_refused() {
    let bytes = file();
    assert!(read_model(&[], true).is_none());
    assert!(read_model(&bytes[..3], true).is_none());
    for len in 0..bytes.len() / 2 {
        assert!(read_model(&bytes[..len], true).is_none());
    }
    let mut bytes = bytes;
    bytes[0] = 255;
    bytes[3] = 255;
    assert!(read_model(&bytes, true).is_none());
}

/// A file with one operator, of the given code, from tensor 0 to tensor 1.
fn small_file(code: i8, options: impl FnOnce(&mut FlatBufferBuilder<'_>) -> (u8, Table)) -> Vec<u8> {
    let mut b = FlatBufferBuilder::new();
    let b = &mut b;
    let tensors = [
        tensor(b, &[1, 2], 9, 0, 1.0, 0),
        tensor(b, &[1, 2], 9, 0, 1.0 / 256.0, -128),
    ];
    let tensors = b.create_vector(&tensors);
    let inputs = b.create_vector(&[0i32]);
    let outputs = b.create_vector(&[1i32]);
    let options = options(b);
    let operators = [operator(b, 0, &[0], 1, Some(options))];
    let operators = b.create_vector(&operators);
    let graph = table(b, |b| {
        b.push_slot_always(slot(0), tensors);
        b.push_slot_always(slot(1), inputs);
        b.push_slot_always(slot(2), outputs);
        b.push_slot_always(slot(3), operators);
    });
    let graphs = b.create_vector(&[graph]);
    let codes = [table(b, |b| b.push_slot(slot(0), code, 0))];
    let codes = b.create_vector(&codes);
    let buffers = [buffer(b, None)];
    let buffers = b.create_vector(&buffers);
    let root = table(b, |b| {
        b.push_slot_always(slot(1), codes);
        b.push_slot_always(slot(2), graphs);
        b.push_slot_always(slot(4), buffers);
    });
    b.finish(root, Some("TFL3"));
    b.finished_data().to_vec()
}

#[test]
fn a_file_is_loaded_and_run() {
    let bytes = small_file(25, |b| (9, table(b, |b| b.push_slot(slot(0), 1.0f32, 0.0))));
    let mut plan = load(&bytes, true).unwrap();
    assert!(plan.is_resolved());
    assert_eq!(plan.layers.len(), 1);
    let values = plan
        .exponent_arguments(0)
        .unwrap()
        .into_iter()
        .map(|bits| libm::expf(f32::from_bits(bits)).to_bits())
        .collect();
    assert!(plan.set_exponentials(0, values));
    let mut output = [0; 2];
    plan.predict_quantized(&mut RefBackend, &[4, 4], &mut output)
        .unwrap();
    assert_eq!(output, [0, 0]);
    plan.predict_quantized(&mut RefBackend, &[-100, 100], &mut output)
        .unwrap();
    assert_eq!(output, [-128, 127]);
}

#[test]
fn a_file_that_cannot_be_run_is_refused() {
    assert_eq!(load(&[1, 2, 3], true).err(), Some(FileError::Unreadable));
    let bytes = small_file(39, |b| (0, table(b, |_| {})));
    assert_eq!(
        load(&bytes, true).err(),
        Some(FileError::Model(ModelError::UnsupportedOperator {
            operator: 39
        }))
    );
    let bytes = small_file(25, |b| (11, table(b, |_| {})));
    assert_eq!(
        load(&bytes, true).err(),
        Some(FileError::Model(ModelError::Malformed))
    );
}

#[test]
fn exponentials_go_to_softmax_layers_alone() {
    let mut model = read_model(&file(), true).unwrap();
    let graph = &mut model.subgraphs.as_mut().unwrap()[0];
    let operators = graph.operators.as_mut().unwrap();
    operators.swap(1, 5);
    operators.truncate(2);
    let mut plan = compile(&model).unwrap();
    assert!(plan.exponent_arguments(0).is_none());
    assert!(!plan.set_exponentials(0, vec![1; 256]));
    let arguments = plan.exponent_arguments(1).unwrap();
    assert_eq!(arguments.len(), 256);
    // Scale 0.5 and beta 1.5.
    assert_eq!(f32::from_bits(arguments[4]), -3.0);
    assert!(plan.set_exponentials(1, vec![7; 256]));
    match &plan.layers[1] {
        Layer::Softmax(layer) => assert_eq!(layer.exponentials, vec![7; 256]),
        _ => panic!("a softmax layer is expected"),
    }
}

/// Whether the flatbuffers verifier accepts the root table of a file.
fn root_is_well_formed(bytes: &[u8]) -> bool {
    let options = VerifierOptions::default();
    let mut verifier = Verifier::new(&options, bytes);
    let root = u32::from_le_bytes([bytes[0], bytes[1], bytes[2], bytes[3]]);
    let accepted = verifier.visit_table(root as usize).is_ok();
    accepted
}

#[test]
fn a_file_that_is_not_well_formed_is_refused() {
    // The root table stands at an odd position; all of its fields are absent.
    let bytes = [5, 0, 0, 0, 0, 0xfc, 0xff, 0xff, 0xff, 4, 0, 4, 0];
    let well_formed = root_is_well_formed(&bytes);
    assert!(!well_formed);
    assert!(read_model(&bytes, well_formed).is_none());
    assert_eq!(
        load(&bytes, well_formed).err(),
        Some(FileError::Unreadable)
    );

    let bytes = small_file(25, |b| (9, table(b, |b| b.push_slot(slot(0), 1.0f32, 0.0))));
    assert!(root_is_well_formed(&bytes));
    assert!(load(&bytes, true).is_ok());
    assert_eq!(load(&bytes, false).err(), Some(FileError::Unreadable));
}
