use vstd::prelude::*;
use vstd::slice::slice_to_vec;

verus! {

/// A piece of an upstream chunk, tagged with whether it begins a new frame.
pub struct BcDataMarked {
    pub bytes: Vec<u8>,
    pub valid_start: bool,
}

impl View for BcDataMarked {
    type V = (Seq<u8>, bool);

    open spec fn view(&self) -> (Seq<u8>, bool) {
        (self.bytes@, self.valid_start)
    }
}

impl BcDataMarked {
    /// A segment that starts a frame: a consumer may begin its stream here.
    pub fn new_valid_start(b: Vec<u8>) -> (r: Self)
        ensures
            r@ == (b@, true),
    {
        Self { bytes: b, valid_start: true }
    }

    /// A segment that continues the frame in progress.
    pub fn new_invalid(b: Vec<u8>) -> (r: Self)
        ensures
            r@ == (b@, false),
    {
        Self { bytes: b, valid_start: false }
    }
}

} // verus!

verus! {

/// One response header: its lower-case name and its raw value.
pub struct Header {
    pub name: Vec<u8>,
    pub value: Vec<u8>,
}

impl View for Header {
    type V = (Seq<u8>, Seq<u8>);

    open spec fn view(&self) -> (Seq<u8>, Seq<u8>) {
        (self.name@, self.value@)
    }
}

pub open spec fn headers_view(hs: Seq<Header>) -> Seq<(Seq<u8>, Seq<u8>)> {
    hs.map_values(|h: Header| h@)
}

impl Header {
    pub fn new(name: Vec<u8>, value: Vec<u8>) -> (r: Self)
        ensures
            r@ == (name@, value@),
    {
        Header { name, value }
    }

    pub fn copy(&self) -> (r: Self)
        ensures
            r@ == self@,
    {
        Header { name: slice_to_vec(self.name.as_slice()), value: slice_to_vec(self.value.as_slice()) }
    }
}

} // verus!
