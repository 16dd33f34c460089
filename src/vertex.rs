use vstd::prelude::*;

verus! {

/// An opaque content identifier of a revision, such as a commit hash.
#[derive(Clone, Debug, PartialEq, Eq, Hash)]
pub struct Vertex {
    bytes: Vec<u8>,
}

impl View for Vertex {
    type V = Seq<u8>;

    open spec fn view(&self) -> Seq<u8> {
        self.byte_seq()
    }
}

impl Vertex {
    pub closed spec fn byte_seq(&self) -> Seq<u8> {
        self.bytes@
    }

    pub fn new(bytes: Vec<u8>) -> (r: Vertex)
        ensures
            r@ == bytes@,
    {
        Vertex { bytes }
    }

    pub fn as_bytes(&self) -> (r: &Vec<u8>)
        ensures
            r@ == self@,
    {
        &self.bytes
    }

    /// A copy of the vertex.
    pub fn duplicate(&self) -> (r: Vertex)
        ensures
            r@ == self@,
    {
        Vertex { bytes: self.bytes.clone() }
    }

    /// Byte-exact equality.
    pub fn same_as(&self, other: &Vertex) -> (r: bool)
        ensures
            r == (self@ == other@),
    {
        if self.bytes.len() != other.bytes.len() {
            return false;
        }
        let mut i: usize = 0;
        while i < self.bytes.len()
            invariant
                0 <= i <= self.bytes.len(),
                self.bytes.len() == other.bytes.len(),
                forall|k: int| 0 <= k < i ==> self.bytes@[k] == other.bytes@[k],
            decreases self.bytes.len() - i,
        {
            if self.bytes[i] != other.bytes[i] {
                return false;
            }
            i = i + 1;
        }
        proof {
            assert(self.bytes@ =~= other.bytes@);
        }
        true
    }
}

} // verus!
