//! The CUDA backend, which is not available in this version: creating one
//! always fails, and no device is reported.

use vstd::prelude::*;
use crate::text::{decimal, join2, join3, owned, usize_text};

verus! {

/// Errors of the CUDA backend.
#[derive(Debug)]
pub enum CudaError {
    /// CUDA support is not implemented.
    NotImplemented,
    /// An error of the CUDA runtime.
    RuntimeError(String),
    /// No device has this identifier.
    DeviceNotFound(usize),
    /// An allocation of this many bytes failed.
    OutOfMemory(usize),
    /// A kernel could not be launched.
    KernelLaunchFailed(String),
}

/// The text of a CUDA error.
pub open spec fn cuda_error_text(e: CudaError) -> Seq<char> {
    match e {
        CudaError::NotImplemented => "CUDA 后端尚未实现，请使用 CPU 后端（--backend cpu）"@,
        CudaError::RuntimeError(m) => "CUDA 运行时错误: "@ + m@,
        CudaError::DeviceNotFound(id) => "CUDA 设备未找到: 设备 ID "@ + decimal(id as nat),
        CudaError::OutOfMemory(n) => "CUDA 内存分配失败: 需要 "@ + decimal(n as nat) + " 字节"@,
        CudaError::KernelLaunchFailed(m) => "CUDA 内核启动失败: "@ + m@,
    }
}

impl CudaError {
    /// The text of the error: for a missing implementation, advice to use
    /// the CPU backend; otherwise what failed.
    pub fn describe(&self) -> (r: String)
        ensures
            r@ == cuda_error_text(*self),
    {
        match self {
            CudaError::NotImplemented => owned("CUDA 后端尚未实现，请使用 CPU 后端（--backend cpu）"),
            CudaError::RuntimeError(m) => join2("CUDA 运行时错误: ", m.as_str()),
            CudaError::DeviceNotFound(id) => {
                let n = usize_text(*id);
                join2("CUDA 设备未找到: 设备 ID ", n.as_str())
            },
            CudaError::OutOfMemory(bytes) => {
                let n = usize_text(*bytes);
                join3("CUDA 内存分配失败: 需要 ", n.as_str(), " 字节")
            },
            CudaError::KernelLaunchFailed(m) => join2("CUDA 内核启动失败: ", m.as_str()),
        }
    }
}

/// A CUDA backend on one GPU device.
#[derive(Debug)]
pub struct CudaBackend {
    device_id: usize,
}

impl CudaBackend {
    /// Creating a CUDA backend always fails: CUDA support is not implemented.
    pub fn new(device_id: usize) -> (r: Result<CudaBackend, CudaError>)
        ensures
            r matches Err(CudaError::NotImplemented),
    {
        Err(CudaError::NotImplemented)
    }

    /// Whether CUDA can be used: never, in this version.
    pub fn is_available() -> (r: bool)
        ensures
            !r,
    {
        false
    }

    /// The number of GPU devices found: none, in this version.
    pub fn device_count() -> (r: usize)
        ensures
            r == 0,
    {
        0
    }
}

/// The advice shown when CUDA is asked for but unavailable.
pub open spec fn cuda_unavailable_text() -> Seq<char> {
    "CUDA 后端尚未实现。\n当前版本仅支持 CPU 后端。\n未来版本将支持通过 CUDA/cuDNN 加速推理。\n请使用 --backend cpu 参数来使用 CPU 后端。"@
}

/// The advice shown when CUDA is asked for but unavailable.
pub fn cuda_unavailable_message() -> (r: String)
    ensures
        r@ == cuda_unavailable_text(),
{
    owned(
        "CUDA 后端尚未实现。\n当前版本仅支持 CPU 后端。\n未来版本将支持通过 CUDA/cuDNN 加速推理。\n请使用 --backend cpu 参数来使用 CPU 后端。",
    )
}

} // verus!
