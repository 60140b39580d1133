use transformer::error::{DropSuccess, Error, ForkSuccess};
use transformer::kernels::{ComputeCapability, DeviceInfo, DropOption, NvidiaKernels};
use transformer::dtype::DataType;

#[test]
fn error_status_codes() {
    assert_eq!(Error::SessionNotFound.status(), 404);
    assert_eq!(Error::SessionBusy.status(), 406);
    assert_eq!(Error::SessionDuplicate.status(), 409);
    assert_eq!(Error::WrongJson("bad".to_string()).status(), 400);
    assert_eq!(Error::InvalidDialogPos(3).status(), 416);
}

#[test]
fn error_bodies() {
    let b = Error::SessionBusy.body();
    assert_eq!(b.status, 406);
    assert_eq!(b.code, 0);
    assert_eq!(b.message, "Session is busy");
    assert_eq!(b.current_dialog_pos, None);
    let b = Error::InvalidDialogPos(7).body();
    assert_eq!(b.message, "Dialog position out of range");
    assert_eq!(b.current_dialog_pos, Some(7));
    let b = Error::WrongJson("expected value".to_string()).body();
    assert_eq!(b.message, "expected value");
    assert_eq!(Error::SessionNotFound.body().message, "Session not found");
    assert_eq!(Error::SessionDuplicate.body().message, "Session ID already exists");
}

#[test]
fn success_messages() {
    assert_eq!(ForkSuccess.msg(), "fork success");
    assert_eq!(DropSuccess.msg(), "drop success");
}

fn dev(block: usize, major: u32, minor: u32) -> DeviceInfo {
    DeviceInfo { max_threads_block: block, compute_capability: ComputeCapability { major, minor } }
}

#[test]
fn kernels_use_common_capability() {
    let devices = [dev(1024, 8, 6), dev(512, 8, 0), dev(1024, 7, 5)];
    let k = NvidiaKernels::new(&devices, 2048, 4096);
    assert_eq!(k.rope.max_num_threads_block, 512);
    assert_eq!(k.rope.compute_capability, ComputeCapability { major: 7, minor: 5 });
    assert_eq!(k.rms_norm.num_threads_warp, 32);
    assert_eq!(k.rms_norm_max_size, 2048);
    assert_eq!(k.softmax_max_size, 4096);
    assert_eq!(k.mat_mul, DataType::F16);
    assert_eq!(k.swiglu, k.rope);
    let single = NvidiaKernels::new(&[dev(256, 9, 0)], 1, 1);
    assert_eq!(single.rope.max_num_threads_block, 256);
    assert_eq!(single.rope.compute_capability, ComputeCapability { major: 9, minor: 0 });
}

#[test]
fn drop_option_takes_once() {
    let mut d = DropOption::from(5u32);
    assert_eq!(*d.as_ref(), 5);
    assert!(d.is_some());
    assert_eq!(d.take(), 5);
    assert!(!d.is_some());
}
