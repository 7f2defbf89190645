//! What the library asks of the bus, one request at a time, and what the
//! status that the bus reports back means.
//!
//! A caller performs a request in three steps: `check` it, hand it to the
//! bus, and give the status that came back to `outcome`.

use vstd::prelude::*;
use vstd::utf8::encode_utf8;
use crate::error::{Error, CONVERSION, ENCODING, SHORT_WRITE};

verus! {

/// One operation for the bus to perform.
#[derive(Debug, Clone, PartialEq, Eq)]
pub enum Request {
    /// Open the connection that `params` describe.
    Open { params: String },
    /// Read the text at `path`.
    Read { path: String },
    /// Read the bytes at `path`.
    ReadBytes { path: String },
    /// Write the text `value`, and a NUL that ends it, to `path`.
    Write { path: String, value: String },
    /// Write `bytes` to `path`.
    WriteBytes { path: String, bytes: Vec<u8> },
    /// Close the connection.
    Close,
}

/// A request as the contracts see it.
pub enum RequestView {
    Open { params: Seq<char> },
    Read { path: Seq<char> },
    ReadBytes { path: Seq<char> },
    Write { path: Seq<char>, value: Seq<char> },
    WriteBytes { path: Seq<char>, bytes: Seq<u8> },
    Close,
}

impl View for Request {
    type V = RequestView;

    open spec fn view(&self) -> RequestView {
        match *self {
            Request::Open { params } => RequestView::Open { params: params@ },
            Request::Read { path } => RequestView::Read { path: path@ },
            Request::ReadBytes { path } => RequestView::ReadBytes { path: path@ },
            Request::Write { path, value } => RequestView::Write { path: path@, value: value@ },
            Request::WriteBytes { path, bytes } => RequestView::WriteBytes {
                path: path@,
                bytes: bytes@,
            },
            Request::Close => RequestView::Close,
        }
    }
}

/// Whether `text` holds a NUL. The bus takes text that a NUL ends, so text
/// with a NUL inside cannot be handed to it.
pub open spec fn has_nul(text: Seq<char>) -> bool {
    text.contains('\0')
}

impl RequestView {
    /// Whether all text of the request can be handed to the bus. The bytes of
    /// `WriteBytes` are no text: they may hold what they like.
    pub open spec fn encodable(self) -> bool {
        match self {
            RequestView::Open { params } => !has_nul(params),
            RequestView::Read { path } => !has_nul(path),
            RequestView::ReadBytes { path } => !has_nul(path),
            RequestView::Write { path, value } => !has_nul(path) && !has_nul(value),
            RequestView::WriteBytes { path, bytes } => !has_nul(path),
            RequestView::Close => true,
        }
    }

    /// The number of bytes that the request has the bus write: for `Write` the
    /// value in UTF-8 and the NUL behind it. A request that writes nothing
    /// has length 0.
    pub open spec fn length(self) -> nat {
        match self {
            RequestView::Write { path, value } => encode_utf8(value).len() + 1,
            RequestView::WriteBytes { path, bytes } => bytes.len(),
            _ => 0,
        }
    }

    /// What stands in the way of the request before the bus is asked:
    /// text with a NUL first, then a length that the bus cannot take.
    pub open spec fn check(self) -> Result<(), Error> {
        if !self.encodable() {
            Err(Error::new(ENCODING))
        } else if self.length() > isize::MAX {
            Err(Error::new(CONVERSION))
        } else {
            Ok(())
        }
    }

    /// What the status that the bus reported means. Opening succeeds with
    /// status 0 and a read with any status from 0 up; a failure of either
    /// hands the status on. A write succeeds only if the status is the number
    /// of bytes that were to be written, and fails with `SHORT_WRITE` on any
    /// other. Closing reports nothing and always succeeds.
    pub open spec fn outcome(self, status: isize) -> Result<(), Error> {
        match self {
            RequestView::Open { params } => if status == 0 {
                Ok(())
            } else {
                Err(Error::new(status))
            },
            RequestView::Read { path } => if status >= 0 {
                Ok(())
            } else {
                Err(Error::new(status))
            },
            RequestView::ReadBytes { path } => if status >= 0 {
                Ok(())
            } else {
                Err(Error::new(status))
            },
            RequestView::Write { path, value } => if status == self.length() {
                Ok(())
            } else {
                Err(Error::new(SHORT_WRITE))
            },
            RequestView::WriteBytes { path, bytes } => if status == self.length() {
                Ok(())
            } else {
                Err(Error::new(SHORT_WRITE))
            },
            RequestView::Close => Ok(()),
        }
    }
}

/// A write succeeds on the full count alone: a status that is not the number
/// of bytes that were to be written, a smaller one as well as a larger one,
/// is a failure with the code `SHORT_WRITE`.
pub proof fn lemma_write_needs_full_count(request: RequestView, status: isize)
    requires
        request is Write || request is WriteBytes,
    ensures
        request.outcome(status) is Ok <==> status == request.length(),
        status != request.length() ==> request.outcome(status) == Err::<(), Error>(
            Error::new(SHORT_WRITE),
        ),
{
}

/// Whether `text` holds a NUL.
pub fn holds_nul(text: &str) -> (found: bool)
    ensures
        found == has_nul(text@),
{
    let mut found = false;
    for c in it: text.chars()
        invariant
            it.seq() == text@,
            found == has_nul(text@.take(it.index())),
    {
        proof {
            let i = it.index();
            assert(text@.take(i + 1) =~= text@.take(i).push(c));
            vstd::seq_lib::lemma_seq_contains_after_push(text@.take(i), c, '\0');
        }
        if c == '\0' {
            found = true;
        }
    }
    proof {
        assert(text@.take(text@.len() as int) =~= text@);
    }
    found
}

impl Request {
    /// Tells whether the request can go to the bus at all.
    pub fn check(&self) -> (ready: Result<(), Error>)
        ensures
            ready == self@.check(),
    {
        let encodable = match self {
            Request::Open { params } => !holds_nul(params.as_str()),
            Request::Read { path } => !holds_nul(path.as_str()),
            Request::ReadBytes { path } => !holds_nul(path.as_str()),
            Request::Write { path, value } => !holds_nul(path.as_str()) && !holds_nul(
                value.as_str(),
            ),
            Request::WriteBytes { path, bytes } => !holds_nul(path.as_str()),
            Request::Close => true,
        };
        if !encodable {
            return Err(Error::new(ENCODING));
        }
        let fits = match self {
            Request::Write { path, value } => value.as_str().as_bytes().len() < isize::MAX as usize,
            Request::WriteBytes { path, bytes } => bytes.len() <= isize::MAX as usize,
            _ => true,
        };
        if fits {
            Ok(())
        } else {
            Err(Error::new(CONVERSION))
        }
    }

    /// Tells what the status that the bus reported for this request means.
    pub fn outcome(&self, status: isize) -> (done: Result<(), Error>)
        ensures
            done == self@.outcome(status),
    {
        match self {
            Request::Open { params } => if status == 0 {
                Ok(())
            } else {
                Err(Error::new(status))
            },
            Request::Read { path } => if status >= 0 {
                Ok(())
            } else {
                Err(Error::new(status))
            },
            Request::ReadBytes { path } => if status >= 0 {
                Ok(())
            } else {
                Err(Error::new(status))
            },
            Request::Write { path, value } => {
                let n = value.as_str().as_bytes().len();
                if status > 0 && status as usize - 1 == n {
                    Ok(())
                } else {
                    Err(Error::new(SHORT_WRITE))
                }
            },
            Request::WriteBytes { path, bytes } => {
                if status >= 0 && status as usize == bytes.len() {
                    Ok(())
                } else {
                    Err(Error::new(SHORT_WRITE))
                }
            },
            Request::Close => Ok(()),
        }
    }
}

} // verus!
