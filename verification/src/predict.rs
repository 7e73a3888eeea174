//! Running the layers of a model on a backend.
use crate::backend::KernelBackend;
use crate::invoke;
use crate::layer::{Layer, Plan, Source, Target};
use crate::types::{KernelError, Status};
use vstd::prelude::*;

verus! {

/// What a run of layers works on.
pub struct State<B> {
    /// The backend.
    pub backend: B,
    /// The output of the model.
    pub output: Seq<i8>,
    /// The scratch buffer.
    pub scratch: Seq<u8>,
    /// The tensors between the layers, by number.
    pub tensors: Seq<Seq<i8>>,
}

/// The elements that a layer reads.
pub open spec fn read(source: Source, input: Seq<i8>, tensors: Seq<Seq<i8>>) -> Seq<i8> {
    match source {
        Source::Input => input,
        Source::Tensor(id) => tensors[id as int],
    }
}

impl<B: KernelBackend> State<B> {
    /// The elements that a layer finds where it writes.
    pub open spec fn found(self, target: Target) -> Seq<i8> {
        match target {
            Target::Output => self.output,
            Target::Tensor { len, .. } => invoke::zeros(len),
        }
    }

    /// The elements that a layer has left where it writes.
    pub open spec fn left(self, target: Target) -> Seq<i8> {
        match target {
            Target::Output => self.output,
            Target::Tensor { id, .. } => self.tensors[id as int],
        }
    }

    /// The first input of a layer.
    pub open spec fn first(self, layer: Layer, input: Seq<i8>) -> Seq<i8> {
        read(layer.source(), input, self.tensors)
    }

    /// The second input of a layer; empty where there is none.
    pub open spec fn second(self, layer: Layer, input: Seq<i8>) -> Seq<i8> {
        match layer.second_source() {
            Some(source) => read(source, input, self.tensors),
            None => Seq::empty(),
        }
    }

    /// The layer can be run in this state.
    pub open spec fn accepts(self, layer: Layer, input: Seq<i8>) -> bool {
        layer.invocable(
            self.first(layer, input),
            self.second(layer, input),
            self.backend,
            self.found(layer.target()),
            self.scratch,
        )
    }

    /// The layer, run in this state, may return `status` and lead to `after`: it
    /// writes its target and leaves all else as it was.
    pub open spec fn steps(
        self,
        layer: Layer,
        input: Seq<i8>,
        after: State<B>,
        status: Status,
    ) -> bool {
        &&& match layer.target() {
            Target::Output => after.tensors == self.tensors,
            Target::Tensor { id, .. } => {
                &&& after.output == self.output
                &&& after.tensors == self.tensors.update(id as int, after.tensors[id as int])
            },
        }
        &&& layer.invoked(
            self.first(layer, input),
            self.second(layer, input),
            self.backend,
            self.found(layer.target()),
            self.scratch,
            after.backend,
            after.left(layer.target()),
            after.scratch,
            status,
        )
    }
}

/// The elements of tensors, by number.
pub open spec fn contents(tensors: Seq<Vec<i8>>) -> Seq<Seq<i8>> {
    Seq::new(tensors.len(), |i: int| tensors[i]@)
}

/// The number of a source is that of a tensor.
pub open spec fn source_within(source: Source, count: int) -> bool {
    source matches Source::Tensor(id) ==> id < count
}

impl Layer {
    /// The numbers that the layer uses are those of tensors.
    pub open spec fn within(self, count: int) -> bool {
        &&& source_within(self.source(), count)
        &&& self.second_source() matches Some(source) ==> source_within(source, count)
        &&& self.target() matches Target::Tensor { id, .. } ==> id < count
    }

    /// The first source of this layer.
    fn read_source(&self) -> (r: Source)
        ensures
            r == self.source(),
    {
        match self {
            Layer::Conv2d(l) => l.input,
            Layer::DepthwiseConv2d(l) => l.input,
            Layer::FullyConnected(l) => l.input,
            Layer::Pool(l) => l.input,
            Layer::Softmax(l) => l.input,
            Layer::Add(l) => l.input1,
            Layer::Reshape(l) => l.input,
        }
    }

    /// The second source of this layer, if there is one.
    fn read_second_source(&self) -> (r: Option<Source>)
        ensures
            r == self.second_source(),
    {
        match self {
            Layer::Add(l) => Some(l.input2),
            _ => None,
        }
    }

    /// The target of this layer.
    fn read_target(&self) -> (r: Target)
        ensures
            r == self.target(),
    {
        match self {
            Layer::Conv2d(l) => l.output,
            Layer::DepthwiseConv2d(l) => l.output,
            Layer::FullyConnected(l) => l.output,
            Layer::Pool(l) => l.output,
            Layer::Softmax(l) => l.output,
            Layer::Add(l) => l.output,
            Layer::Reshape(l) => l.output,
        }
    }

    /// Runs the layer.
    fn run<B: KernelBackend>(
        &self,
        backend: &mut B,
        input: &[i8],
        tensors: &mut Vec<Vec<i8>>,
        output: &mut [i8],
        scratch: &mut [u8],
    ) -> (r: Status)
        requires
            self.within(old(tensors)@.len() as int),
            (State {
                backend: *old(backend),
                output: old(output)@,
                scratch: old(scratch)@,
                tensors: contents(old(tensors)@),
            }).accepts(*self, input@),
        ensures
            final(tensors)@.len() == old(tensors)@.len(),
            (State {
                backend: *old(backend),
                output: old(output)@,
                scratch: old(scratch)@,
                tensors: contents(old(tensors)@),
            }).steps(
                *self,
                input@,
                (State {
                    backend: *final(backend),
                    output: final(output)@,
                    scratch: final(scratch)@,
                    tensors: contents(final(tensors)@),
                }),
                r,
            ),
    {
        let ghost before = contents(tensors@);
        let empty: Vec<i8> = Vec::new();
        match self.read_target() {
            Target::Output => {
                let first: &[i8] = slice_of(self.read_source(), input, tensors);
                let second: &[i8] = match self.read_second_source() {
                    Some(source) => slice_of(source, input, tensors),
                    None => empty.as_slice(),
                };
                self.invoke(backend, first, second, output, scratch)
            },
            Target::Tensor { id, len } => {
                let mut fresh: Vec<i8> = zeroed(len);
                let first: &[i8] = slice_of(self.read_source(), input, tensors);
                let second: &[i8] = match self.read_second_source() {
                    Some(source) => slice_of(source, input, tensors),
                    None => empty.as_slice(),
                };
                let status = self.invoke(backend, first, second, fresh.as_mut_slice(), scratch);
                tensors[id] = fresh;
                assert(contents(tensors@) =~= before.update(id as int, tensors@[id as int]@));
                status
            },
        }
    }
}

/// A fresh tensor.
fn zeroed(len: usize) -> (r: Vec<i8>)
    ensures
        r@ == invoke::zeros(len),
{
    let mut r: Vec<i8> = Vec::new();
    let mut i: usize = 0;
    while i < len
        invariant
            i <= len,
            r@ == invoke::zeros(i),
        decreases len - i,
    {
        r.push(0);
        assert(invoke::zeros(i).push(0i8) =~= invoke::zeros((i + 1) as usize));
        i = i + 1;
    }
    r
}

/// The elements that a layer reads.
fn slice_of<'a>(source: Source, input: &'a [i8], tensors: &'a Vec<Vec<i8>>) -> (r: &'a [i8])
    requires
        source_within(source, tensors@.len() as int),
    ensures
        r@ == read(source, input@, contents(tensors@)),
{
    match source {
        Source::Input => input,
        Source::Tensor(id) => tensors[id].as_slice(),
    }
}

impl Plan {
    /// The tensor of a number has been written by a layer before number `k`.
    pub open spec fn written_before(self, k: int, id: usize) -> bool {
        exists|j: int|
            0 <= j < k && #[trigger] self.layers@[j].writes(id)
    }

    /// What layer `k` reads there is the input of the model, or a tensor that an
    /// earlier layer has written and this one does not write.
    pub open spec fn source_resolved(self, k: int, source: Source) -> bool {
        source matches Source::Tensor(id) ==> {
            &&& self.written_before(k, id)
            &&& !self.layers@[k].writes(id)
        }
    }

    /// Layer `k` refers to tensors of the graph, and reads only what is there.
    pub open spec fn layer_resolved(self, k: int) -> bool {
        let layer = self.layers@[k];
        &&& layer.within(self.tensor_count as int)
        &&& self.source_resolved(k, layer.source())
        &&& layer.second_source() matches Some(source) ==> self.source_resolved(k, source)
    }

    /// Every layer reads only what is there.
    pub open spec fn resolved(self) -> bool {
        forall|k: int| 0 <= k < self.layers@.len() ==> #[trigger] self.layer_resolved(k)
    }

    /// The states from which layer `n` may run, when a run starts from `start`.
    pub open spec fn reaches<B: KernelBackend>(
        self,
        n: int,
        input: Seq<i8>,
        start: State<B>,
        state: State<B>,
    ) -> bool
        decreases n,
    {
        if n <= 0 {
            state == start
        } else {
            exists|before: State<B>|
                self.reaches(n - 1, input, start, before) && #[trigger] before.steps(
                    self.layers@[n - 1],
                    input,
                    state,
                    Ok(()),
                )
        }
    }

    /// The backend can run every layer that is reached from `start`.
    pub open spec fn runnable<B: KernelBackend>(self, input: Seq<i8>, start: State<B>) -> bool {
        forall|n: int, state: State<B>|
            0 <= n < self.layers@.len() && #[trigger] self.reaches(n, input, start, state)
                ==> state.accepts(self.layers@[n], input)
    }

    /// A run from `start` may end in `end` with `status`: all layers have run, or
    /// one has failed and none has run after it.
    pub open spec fn ends<B: KernelBackend>(
        self,
        input: Seq<i8>,
        start: State<B>,
        end: State<B>,
        status: Status,
    ) -> bool {
        match status {
            Ok(_) => self.reaches(self.layers@.len() as int, input, start, end),
            Err(_) => exists|n: int, state: State<B>|
                0 <= n < self.layers@.len() && #[trigger] self.reaches(n, input, start, state)
                    && state.steps(self.layers@[n], input, end, status),
        }
    }

    /// The state in which a run starts.
    pub open spec fn start<B: KernelBackend>(
        self,
        backend: B,
        output: Seq<i8>,
        scratch: Seq<u8>,
    ) -> State<B> {
        State {
            backend,
            output,
            scratch,
            tensors: Seq::new(self.tensor_count as nat, |i: int| Seq::<i8>::empty()),
        }
    }

    /// The input and the output have the lengths that the model needs.
    pub open spec fn lengths_fit(self, input: Seq<i8>, output: Seq<i8>) -> bool {
        input.len() == self.input_len && output.len() == self.output_len
    }

    /// Number of quantized input elements that the model expects.
    pub fn input_len(&self) -> (r: usize)
        ensures
            r == self.input_len,
    {
        self.input_len
    }

    /// Number of quantized output elements that the model writes.
    pub fn output_len(&self) -> (r: usize)
        ensures
            r == self.output_len,
    {
        self.output_len
    }
}

/// The larger of all sizes, at least 0.
pub open spec fn largest_size(sizes: Seq<usize>) -> usize
    decreases sizes.len(),
{
    if sizes.len() == 0 {
        0
    } else if sizes.last() > largest_size(sizes.drop_last()) {
        sizes.last()
    } else {
        largest_size(sizes.drop_last())
    }
}

/// What a backend is asked for the scratch memory of a layer.
#[derive(Clone, Copy, Debug)]
pub enum ScratchQuery {
    /// The need of a 2D convolution.
    Conv2d { input_shape: [usize; 4], weights_shape: [usize; 4], output_shape: [usize; 4] },
    /// The need of a depthwise 2D convolution.
    DepthwiseConv2d { input_shape: [usize; 4], weights_shape: [usize; 4], output_shape: [usize; 4] },
    /// The need of softmax.
    Softmax { num_classes: usize },
    /// Nothing: the layer is handed no scratch memory.
    Nothing,
}

impl ScratchQuery {
    /// The backend may answer `size`.
    pub open spec fn answered<B: KernelBackend>(self, size: usize) -> bool {
        match self {
            ScratchQuery::Conv2d { input_shape, weights_shape, output_shape } => call_ensures(
                B::conv2d_scratch_size,
                (input_shape, weights_shape, output_shape),
                size,
            ),
            ScratchQuery::DepthwiseConv2d {
                input_shape,
                weights_shape,
                output_shape,
            } => call_ensures(
                B::depthwise_conv2d_scratch_size,
                (input_shape, weights_shape, output_shape),
                size,
            ),
            ScratchQuery::Softmax { num_classes } => call_ensures(
                B::softmax_scratch_size,
                (num_classes,),
                size,
            ),
            ScratchQuery::Nothing => size == 0,
        }
    }

    /// Asks the backend.
    pub fn ask<B: KernelBackend>(self) -> (r: usize)
        ensures
            self.answered::<B>(r),
    {
        match self {
            ScratchQuery::Conv2d {
                input_shape,
                weights_shape,
                output_shape,
            } => B::conv2d_scratch_size(input_shape, weights_shape, output_shape),
            ScratchQuery::DepthwiseConv2d {
                input_shape,
                weights_shape,
                output_shape,
            } => B::depthwise_conv2d_scratch_size(input_shape, weights_shape, output_shape),
            ScratchQuery::Softmax { num_classes } => B::softmax_scratch_size(num_classes),
            ScratchQuery::Nothing => 0,
        }
    }
}

impl Layer {
    /// What a backend is asked for the scratch memory of this layer.
    pub open spec fn query(self) -> ScratchQuery {
        match self {
            Layer::Conv2d(l) => ScratchQuery::Conv2d {
                input_shape: l.input_shape,
                weights_shape: l.weights_shape,
                output_shape: l.output_shape,
            },
            Layer::DepthwiseConv2d(l) => ScratchQuery::DepthwiseConv2d {
                input_shape: l.input_shape,
                weights_shape: l.weights_shape,
                output_shape: l.output_shape,
            },
            Layer::Softmax(l) => ScratchQuery::Softmax { num_classes: l.input_shape[1] },
            _ => ScratchQuery::Nothing,
        }
    }

    /// What a backend is asked for the scratch memory of this layer.
    pub fn scratch_query(&self) -> (r: ScratchQuery)
        ensures
            r == self.query(),
    {
        match self {
            Layer::Conv2d(l) => ScratchQuery::Conv2d {
                input_shape: l.input_shape,
                weights_shape: l.weights_shape,
                output_shape: l.output_shape,
            },
            Layer::DepthwiseConv2d(l) => ScratchQuery::DepthwiseConv2d {
                input_shape: l.input_shape,
                weights_shape: l.weights_shape,
                output_shape: l.output_shape,
            },
            Layer::Softmax(l) => ScratchQuery::Softmax { num_classes: l.input_shape[1] },
            _ => ScratchQuery::Nothing,
        }
    }

    /// The backend may state `size` as the scratch memory that the layer needs.
    pub open spec fn needs_scratch<B: KernelBackend>(self, size: usize) -> bool {
        self.query().answered::<B>(size)
    }

    /// Asks the backend for the scratch memory that the layer needs.
    pub fn scratch_size<B: KernelBackend>(&self) -> (r: usize)
        ensures
            self.needs_scratch::<B>(r),
    {
        self.scratch_query().ask::<B>()
    }
}

impl Plan {
    /// The backend may state these sizes as the scratch memory of the layers.
    pub open spec fn needs_scratch<B: KernelBackend>(self, sizes: Seq<usize>) -> bool {
        &&& sizes.len() == self.layers@.len()
        &&& forall|k: int|
            0 <= k < sizes.len() ==> self.layers@[k].needs_scratch::<B>(#[trigger] sizes[k])
    }

    /// A scratch buffer of `len` bytes is enough for every layer.
    pub open spec fn scratch_suffices<B: KernelBackend>(self, len: nat) -> bool {
        forall|sizes: Seq<usize>| #[trigger]
            self.needs_scratch::<B>(sizes) ==> largest_size(sizes) <= len
    }

    /// Maximum scratch size in bytes that the model needs on backend `B`.
    pub fn scratch_len<B: KernelBackend>(&self) -> (r: usize)
        ensures
            exists|sizes: Seq<usize>| #[trigger]
                self.needs_scratch::<B>(sizes) && r == largest_size(sizes),
    {
        let mut required: usize = 0;
        let ghost mut sizes: Seq<usize> = Seq::empty();
        let mut k: usize = 0;
        while k < self.layers.len()
            invariant
                k <= self.layers@.len(),
                sizes.len() == k,
                forall|j: int|
                    0 <= j < k ==> self.layers@[j].needs_scratch::<B>(#[trigger] sizes[j]),
                required == largest_size(sizes),
            decreases self.layers@.len() - k,
        {
            let size: usize = self.layers[k].scratch_size::<B>();
            if size > required {
                required = size;
            }
            proof {
                assert(sizes.push(size).drop_last() =~= sizes);
                sizes = sizes.push(size);
            }
            k = k + 1;
        }
        assert(self.needs_scratch::<B>(sizes));
        required
    }

    /// Whether a layer before number `k` has written the tensor of a number.
    fn find_written(&self, k: usize, id: usize) -> (r: bool)
        requires
            k <= self.layers@.len(),
        ensures
            r == self.written_before(k as int, id),
    {
        let mut j: usize = 0;
        while j < k
            invariant
                j <= k <= self.layers@.len(),
                forall|i: int| 0 <= i < j ==> !#[trigger] self.layers@[i].writes(id),
            decreases k - j,
        {
            if let Target::Tensor { id: i, .. } = self.layers[j].read_target() {
                if i == id {
                    assert(self.layers@[j as int].writes(id));
                    return true;
                }
            }
            j = j + 1;
        }
        false
    }

    fn check_source(&self, k: usize, source: Source) -> (r: bool)
        requires
            k < self.layers@.len(),
        ensures
            r == (source_within(source, self.tensor_count as int) && self.source_resolved(
                k as int,
                source,
            )),
    {
        match source {
            Source::Input => true,
            Source::Tensor(id) => {
                let other = match self.layers[k].read_target() {
                    Target::Output => true,
                    Target::Tensor { id: i, .. } => i != id,
                };
                id < self.tensor_count && other && self.find_written(k, id)
            },
        }
    }

    fn check_layer(&self, k: usize) -> (r: bool)
        requires
            k < self.layers@.len(),
        ensures
            r == self.layer_resolved(k as int),
    {
        let target_fits = match self.layers[k].read_target() {
            Target::Output => true,
            Target::Tensor { id, .. } => id < self.tensor_count,
        };
        let second_fits = match self.layers[k].read_second_source() {
            Some(source) => self.check_source(k, source),
            None => true,
        };
        target_fits && second_fits && self.check_source(k, self.layers[k].read_source())
    }

    /// Whether every layer reads only what is there.
    pub fn is_resolved(&self) -> (r: bool)
        ensures
            r == self.resolved(),
    {
        let mut k: usize = 0;
        while k < self.layers.len()
            invariant
                k <= self.layers@.len(),
                forall|j: int| 0 <= j < k ==> #[trigger] self.layer_resolved(j),
            decreases self.layers@.len() - k,
        {
            if !self.check_layer(k) {
                assert(!self.layer_resolved(k as int));
                return false;
            }
            k = k + 1;
        }
        true
    }

    /// Runs INT8 inference on the given backend, with a scratch buffer.
    ///
    /// For backends that need temporary memory: the scratch buffer holds at least
    /// [`scratch_len`](Plan::scratch_len) bytes.
    pub fn predict_quantized_with_scratch<B: KernelBackend>(
        &self,
        backend: &mut B,
        input: &[i8],
        output: &mut [i8],
        scratch: &mut [u8],
    ) -> (r: Status)
        requires
            self.resolved(),
            self.lengths_fit(input@, old(output)@) ==> {
                &&& self.scratch_suffices::<B>(old(scratch)@.len())
                &&& self.runnable(
                    input@,
                    self.start(*old(backend), old(output)@, old(scratch)@),
                )
            },
        ensures
            if self.lengths_fit(input@, old(output)@) {
                exists|end: State<B>| #[trigger]
                    self.ends(
                        input@,
                        self.start(*old(backend), old(output)@, old(scratch)@),
                        end,
                        r,
                    ) && end.backend == *final(backend) && end.output == final(output)@
                        && end.scratch == final(scratch)@
            } else {
                &&& r == Err::<(), KernelError>(KernelError::InvalidShape)
                &&& *final(backend) == *old(backend)
                &&& final(output)@ == old(output)@
                &&& final(scratch)@ == old(scratch)@
            },
    {
        if input.len() != self.input_len || output.len() != self.output_len {
            return Err(KernelError::InvalidShape);
        }
        let ghost start = self.start(*backend, output@, scratch@);
        let mut tensors: Vec<Vec<i8>> = Vec::new();
        while tensors.len() < self.tensor_count
            invariant
                tensors@.len() <= self.tensor_count,
                forall|i: int| 0 <= i < tensors@.len() ==> (#[trigger] tensors@[i])@.len() == 0,
            decreases self.tensor_count - tensors@.len(),
        {
            tensors.push(Vec::new());
        }
        assert forall|i: int| 0 <= i < self.tensor_count implies contents(tensors@)[i]
            == #[trigger] start.tensors[i] by {
            assert(tensors@[i]@ =~= start.tensors[i]);
        }
        assert(contents(tensors@) =~= start.tensors);
        let mut k: usize = 0;
        #[verifier::loop_isolation(false)]
        while k < self.layers.len()
            invariant
                k <= self.layers@.len(),
                tensors@.len() == self.tensor_count,
                self.reaches(
                    k as int,
                    input@,
                    start,
                    (State {
                        backend: *backend,
                        output: output@,
                        scratch: scratch@,
                        tensors: contents(tensors@),
                    }),
                ),
            decreases self.layers@.len() - k,
        {
            let ghost before = State {
                backend: *backend,
                output: output@,
                scratch: scratch@,
                tensors: contents(tensors@),
            };
            proof {
                assert(self.layer_resolved(k as int));
                assert(self.reaches(k as int, input@, start, before));
            }
            let status = self.layers[k].run(backend, input, &mut tensors, output, scratch);
            let ghost after = State {
                backend: *backend,
                output: output@,
                scratch: scratch@,
                tensors: contents(tensors@),
            };
            if let Err(e) = status {
                assert(self.ends(input@, start, after, status));
                return Err(e);
            }
            assert(status->Ok_0 == ());
            assert(before.steps(self.layers@[(k + 1) - 1], input@, after, Ok(())));
            k = k + 1;
        }
        assert(self.ends(
            input@,
            start,
            (State {
                backend: *backend,
                output: output@,
                scratch: scratch@,
                tensors: contents(tensors@),
            }),
            Ok(()),
        ));
        Ok(())
    }

    /// Runs INT8 inference on the given backend.
    pub fn predict_quantized<B: KernelBackend>(
        &self,
        backend: &mut B,
        input: &[i8],
        output: &mut [i8],
    ) -> (r: Status)
        requires
            self.resolved(),
            self.lengths_fit(input@, old(output)@) ==> {
                &&& self.scratch_suffices::<B>(0)
                &&& self.runnable(
                    input@,
                    self.start(*old(backend), old(output)@, Seq::<u8>::empty()),
                )
            },
        ensures
            if self.lengths_fit(input@, old(output)@) {
                exists|end: State<B>| #[trigger]
                    self.ends(
                        input@,
                        self.start(*old(backend), old(output)@, Seq::<u8>::empty()),
                        end,
                        r,
                    ) && end.backend == *final(backend) && end.output == final(output)@
            } else {
                &&& r == Err::<(), KernelError>(KernelError::InvalidShape)
                &&& *final(backend) == *old(backend)
                &&& final(output)@ == old(output)@
            },
    {
        let mut scratch: Vec<u8> = Vec::new();
        assert(scratch@ =~= Seq::<u8>::empty());
        self.predict_quantized_with_scratch(backend, input, output, scratch.as_mut_slice())
    }

    /// Scale of the input, as the bits of a single.
    pub fn input_scale(&self) -> (r: u32)
        ensures
            r == self.input_quant.scale,
    {
        self.input_quant.scale
    }

    /// Zero point of the input.
    pub fn input_zero_point(&self) -> (r: i32)
        ensures
            r == self.input_quant.zero_point,
    {
        self.input_quant.zero_point
    }

    /// Scale of the output, as the bits of a single.
    pub fn output_scale(&self) -> (r: u32)
        ensures
            r == self.output_quant.scale,
    {
        self.output_quant.scale
    }

    /// Zero point of the output.
    pub fn output_zero_point(&self) -> (r: i32)
        ensures
            r == self.output_quant.zero_point,
    {
        self.output_quant.zero_point
    }
}

} // verus!
