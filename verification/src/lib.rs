//! A 1-Wire bus as a namespace of paths: devices, their attributes, and the
//! scan that finds the devices a caller asks for.
//!
//! The library performs no I/O. It says which path is to be read or written
//! next and what the answer means; the caller talks to the bus.

use vstd::prelude::*;

pub mod decimal;
pub mod device;
pub mod error;
pub mod options;
pub mod request;
pub mod scan;
pub mod text;

pub use device::{Device, DeviceInfo};
pub use error::Error;
pub use options::ScanOptions;
pub use request::{Request, RequestView};
pub use scan::Scan;

verus! {

/// The request that opens the connection which `params` describe.
pub fn init(params: &str) -> (request: Request)
    ensures
        request@ == (RequestView::Open { params: params@ }),
{
    Request::Open { params: params.to_owned() }
}

/// The request that reads the text at `path`.
pub fn get(path: &str) -> (request: Request)
    ensures
        request@ == (RequestView::Read { path: path@ }),
{
    Request::Read { path: path.to_owned() }
}

/// The request that reads the bytes at `path`.
pub fn get_bytes(path: &str) -> (request: Request)
    ensures
        request@ == (RequestView::ReadBytes { path: path@ }),
{
    Request::ReadBytes { path: path.to_owned() }
}

/// The request that writes the text `value` to `path`.
pub fn set(path: &str, value: &str) -> (request: Request)
    ensures
        request@ == (RequestView::Write { path: path@, value: value@ }),
{
    Request::Write { path: path.to_owned(), value: value.to_owned() }
}

/// The request that writes the bytes `value` to `path`.
pub fn set_bytes(path: &str, value: &[u8]) -> (request: Request)
    ensures
        request@ == (RequestView::WriteBytes { path: path@, bytes: value@ }),
{
    Request::WriteBytes { path: path.to_owned(), bytes: vstd::slice::slice_to_vec(value) }
}

/// Begins a scan of the bus for the devices that `options` keep. The scan
/// first asks for the listing of the root.
pub fn scan<'a>(options: ScanOptions<'a>) -> (scan: Scan<'a>)
    ensures
        scan@ == scan::ScanView::start(options@),
{
    Scan::new(options)
}

/// The request that closes the connection.
pub fn finish() -> (request: Request)
    ensures
        request@ == RequestView::Close,
{
    Request::Close
}

} // verus!
