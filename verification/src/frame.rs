use vstd::prelude::*;

verus! {

/// A received packet: either a view into the memory of a ring or bytes of its own.
#[derive(Debug)]
pub enum Frame<'a> {
    Borrowed(&'a [u8]),
    Owned(Vec<u8>),
}

impl<'a> View for Frame<'a> {
    type V = Seq<u8>;

    /// The bytes of the packet.
    open spec fn view(&self) -> Seq<u8> {
        match self {
            Frame::Borrowed(bytes) => bytes@,
            Frame::Owned(bytes) => bytes@,
        }
    }
}

impl<'a> Frame<'a> {
    /// A frame over bytes that live elsewhere.
    pub fn new(data: &'a [u8]) -> (frame: Self)
        ensures
            frame@ == data@,
            frame is Borrowed,
    {
        Frame::Borrowed(data)
    }

    /// A frame that owns its bytes.
    pub fn new_owned(data: Vec<u8>) -> (frame: Frame<'static>)
        ensures
            frame@ == data@,
            frame is Owned,
    {
        Frame::Owned(data)
    }

    /// The bytes of the packet.
    pub fn payload(&self) -> (bytes: &[u8])
        ensures
            bytes@ == self@,
    {
        match self {
            Frame::Borrowed(bytes) => bytes,
            Frame::Owned(bytes) => bytes.as_slice(),
        }
    }
}

} // verus!
