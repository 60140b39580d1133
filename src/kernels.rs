use vstd::prelude::*;
use crate::dtype::DataType;

verus! {

/// Threads per warp on the supported accelerators.
pub const WARP_SIZE: usize = 32;

/// Compute capability of a device, ordered by major version, then minor.
#[derive(Clone, Copy, Debug, PartialEq, Eq, Structural)]
pub struct ComputeCapability {
    pub major: u32,
    pub minor: u32,
}

pub open spec fn cc_le(a: ComputeCapability, b: ComputeCapability) -> bool {
    a.major < b.major || (a.major == b.major && a.minor <= b.minor)
}

/// The limits of one device that kernel construction depends on.
#[derive(Clone, Copy, Debug, PartialEq, Eq, Structural)]
pub struct DeviceInfo {
    pub max_threads_block: usize,
    pub compute_capability: ComputeCapability,
}

/// Launch limits shared by every operator of one backend.
#[derive(Clone, Copy, Debug, PartialEq, Eq, Structural)]
pub struct OperatorConfig {
    pub data_layout: DataType,
    pub num_threads_warp: usize,
    pub max_num_threads_block: usize,
    pub compute_capability: ComputeCapability,
}

/// The operator set of the accelerator backend: one configuration per
/// operator, built once from the capabilities common to all devices.
#[derive(Clone, Copy, Debug, PartialEq, Eq, Structural)]
pub struct NvidiaKernels {
    pub mat_mul: DataType,
    pub rms_norm: OperatorConfig,
    /// Longest row that normalization reduces over.
    pub rms_norm_max_size: usize,
    pub rope: OperatorConfig,
    pub reform: OperatorConfig,
    pub softmax: OperatorConfig,
    /// Longest row that softmax normalizes.
    pub softmax_max_size: usize,
    pub swiglu: OperatorConfig,
}

/// `m` is the smallest block limit among the devices.
pub open spec fn is_min_block(devices: Seq<DeviceInfo>, m: usize) -> bool {
    &&& exists|i: int| 0 <= i < devices.len() && devices[i].max_threads_block == m
    &&& forall|i: int| 0 <= i < devices.len() ==> m <= #[trigger] devices[i].max_threads_block
}

/// `c` is the lowest compute capability among the devices.
pub open spec fn is_min_cc(devices: Seq<DeviceInfo>, c: ComputeCapability) -> bool {
    &&& exists|i: int| 0 <= i < devices.len() && devices[i].compute_capability == c
    &&& forall|i: int| 0 <= i < devices.len() ==> cc_le(c, #[trigger] devices[i].compute_capability)
}

/// The smallest block limit and the lowest compute capability of a
/// non-empty device set.
pub fn common_capability(devices: &[DeviceInfo]) -> (r: (usize, ComputeCapability))
    requires
        devices@.len() > 0,
    ensures
        is_min_block(devices@, r.0),
        is_min_cc(devices@, r.1),
{
    let mut block = devices[0].max_threads_block;
    let mut cc = devices[0].compute_capability;
    let mut i: usize = 1;
    while i < devices.len()
        invariant
            1 <= i <= devices@.len(),
            exists|j: int| 0 <= j < i && devices@[j].max_threads_block == block,
            forall|j: int| 0 <= j < i ==> block <= #[trigger] devices@[j].max_threads_block,
            exists|j: int| 0 <= j < i && devices@[j].compute_capability == cc,
            forall|j: int| 0 <= j < i ==> cc_le(cc, #[trigger] devices@[j].compute_capability),
        decreases devices@.len() - i,
    {
        let d = devices[i];
        if d.max_threads_block < block {
            block = d.max_threads_block;
        }
        if d.compute_capability.major < cc.major || (d.compute_capability.major == cc.major
            && d.compute_capability.minor < cc.minor) {
            cc = d.compute_capability;
        }
        i = i + 1;
    }
    (block, cc)
}

impl NvidiaKernels {
    /// Builds the operator set for the given devices, tuned to the
    /// smallest block limit and the lowest compute capability among them.
    pub fn new(devices: &[DeviceInfo], rms_norm_max_size: usize, softmax_max_size: usize) -> (k: NvidiaKernels)
        requires
            devices@.len() > 0,
            rms_norm_max_size > 0,
            softmax_max_size > 0,
        ensures
            ({
                let b = k.rope.max_num_threads_block;
                let c = k.rope.compute_capability;
                &&& is_min_block(devices@, b)
                &&& is_min_cc(devices@, c)
                &&& k.mat_mul == DataType::F16
                &&& k.rms_norm == (OperatorConfig { data_layout: DataType::F16, num_threads_warp: WARP_SIZE, max_num_threads_block: b, compute_capability: c })
                &&& k.rms_norm_max_size == rms_norm_max_size
                &&& k.rope == (OperatorConfig { data_layout: DataType::F16, num_threads_warp: WARP_SIZE, max_num_threads_block: b, compute_capability: c })
                &&& k.reform == k.rope
                &&& k.softmax == k.rope
                &&& k.softmax_max_size == softmax_max_size
                &&& k.swiglu == k.rope
            }),
    {
        let (block, cc) = common_capability(devices);
        let config = OperatorConfig {
            data_layout: DataType::F16,
            num_threads_warp: WARP_SIZE,
            max_num_threads_block: block,
            compute_capability: cc,
        };
        NvidiaKernels {
            mat_mul: DataType::F16,
            rms_norm: config,
            rms_norm_max_size,
            rope: config,
            reform: config,
            softmax: config,
            softmax_max_size,
            swiglu: config,
        }
    }
}

/// A value that can be taken out once; used to hold a resource outside the
/// context it will later be bound in.
pub struct DropOption<T>(pub Option<T>);

impl<T> DropOption<T> {
    pub fn new(value: T) -> (r: DropOption<T>)
        ensures
            r.0 == Some(value),
    {
        DropOption(Some(value))
    }

    /// Whether the value is still held.
    pub fn is_some(&self) -> (r: bool)
        ensures
            r == self.0 is Some,
    {
        self.0.is_some()
    }

    pub fn as_ref(&self) -> (r: &T)
        requires
            self.0 is Some,
        ensures
            *r == self.0->Some_0,
    {
        self.0.as_ref().unwrap()
    }

    /// Takes the value out, leaving nothing behind.
    pub fn take(&mut self) -> (r: T)
        requires
            old(self).0 is Some,
        ensures
            r == old(self).0->Some_0,
            final(self).0 is None,
    {
        self.0.take().unwrap()
    }
}

impl<T> From<T> for DropOption<T> {
    fn from(value: T) -> (r: DropOption<T>) {
        DropOption(Some(value))
    }
}

impl<T> vstd::std_specs::convert::FromSpecImpl<T> for DropOption<T> {
    open spec fn obeys_from_spec() -> bool {
        true
    }

    open spec fn from_spec(v: T) -> DropOption<T> {
        DropOption(Some(v))
    }
}

} // verus!
