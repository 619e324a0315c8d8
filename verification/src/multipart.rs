//! A multipart form described as plain data: the named parts a request will
//! carry. Turning the description into an HTTP body is the adapter's job;
//! what the parts are, and in what order, is decided and recorded here.

use vstd::prelude::*;

verus! {

/// One part's payload.
#[derive(Debug, Clone)]
pub enum PartKind {
    /// A text field.
    Text(String),
    /// A file field served from memory, with the filename to present.
    Bytes { value: Vec<u8>, filename: String },
    /// A file field to be read from this path when the request is sent.
    Path(String),
}

/// One named part.
#[derive(Debug, Clone)]
pub struct PartSpec {
    pub name: String,
    pub kind: PartKind,
}

/// A multipart form under construction; parts keep the order they were added
/// in.
#[derive(Debug, Clone)]
pub struct MultipartBuilder {
    inner: Vec<PartSpec>,
}

impl MultipartBuilder {
    /// The parts added so far, in order.
    pub closed spec fn parts(self) -> Seq<PartSpec> {
        self.inner@
    }

    pub fn new() -> (r: MultipartBuilder)
        ensures
            r.parts().len() == 0,
    {
        MultipartBuilder { inner: Vec::new() }
    }

    /// Add a text part.
    pub fn text(self, name: String, value: String) -> (r: MultipartBuilder)
        ensures
            r.parts() == self.parts().push(PartSpec { name, kind: PartKind::Text(value) }),
    {
        let mut inner = self.inner;
        inner.push(PartSpec { name, kind: PartKind::Text(value) });
        MultipartBuilder { inner }
    }

    /// Add a file part from bytes.
    pub fn bytes(self, name: String, bytes: Vec<u8>, filename: String) -> (r: MultipartBuilder)
        ensures
            r.parts() == self.parts().push(
                PartSpec { name, kind: PartKind::Bytes { value: bytes, filename } },
            ),
    {
        let mut inner = self.inner;
        inner.push(PartSpec { name, kind: PartKind::Bytes { value: bytes, filename } });
        MultipartBuilder { inner }
    }

    /// Add a file part by path.
    pub fn path(self, name: String, path: String) -> (r: MultipartBuilder)
        ensures
            r.parts() == self.parts().push(PartSpec { name, kind: PartKind::Path(path) }),
    {
        let mut inner = self.inner;
        inner.push(PartSpec { name, kind: PartKind::Path(path) });
        MultipartBuilder { inner }
    }

    /// Hand the parts out for the adapter to send.
    pub fn into_parts(self) -> (r: Vec<PartSpec>)
        ensures
            r@ == self.parts(),
    {
        self.inner
    }
}

} // verus!
