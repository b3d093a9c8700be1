use crate::errors::Error;
use vstd::prelude::*;

verus! {

/// A named shared byte region, as one process sees it.
///
/// The region's contents are held as an owned byte buffer with a fixed
/// length, a process-wide name and an owner flag.  The owner creates
/// the named object and is the one that must eventually remove it from
/// the namespace; a peer only attaches to an existing object.  Mapping
/// a region into another address space is an operating-system affair
/// that the library does not perform itself: a caller that maps a
/// named object hands the mapped contents to [`Shm::attach`] and keeps
/// the mapping alive for as long as the segment is used.
#[derive(Debug)]
pub struct Shm {
    name: String,
    bytes: Vec<u8>,
    owner: bool,
}

impl View for Shm {
    type V = Seq<u8>;

    closed spec fn view(&self) -> Seq<u8> {
        self.bytes@
    }
}

impl Shm {
    /// The segment's process-wide name.
    pub closed spec fn spec_name(&self) -> Seq<char> {
        self.name@
    }

    /// Whether this handle owns the named object.
    pub closed spec fn spec_owner(&self) -> bool {
        self.owner
    }

    /// Creates the owner side of a named segment: a zeroed region of
    /// exactly `size` bytes.
    pub fn create(name: &str, size: usize) -> (s: Shm)
        ensures
            s@.len() == size,
            forall|i: int| 0 <= i < size ==> s@[i] == 0u8,
            s.spec_name() == name@,
            s.spec_owner(),
    {
        let mut bytes: Vec<u8> = Vec::new();
        let mut i: usize = 0;
        while i < size
            invariant
                i <= size,
                bytes@.len() == i,
                forall|j: int| 0 <= j < i ==> bytes@[j] == 0u8,
            decreases size - i,
        {
            bytes.push(0u8);
            i = i + 1;
        }
        Shm { name: name.to_owned(), bytes, owner: true }
    }

    /// Attaches the peer side to a named segment that already exists:
    /// `region` holds the mapped contents, which must be at least
    /// `size` bytes long.
    pub fn attach(name: &str, region: Vec<u8>, size: usize) -> (r: Result<Shm, Error>)
        ensures
            match r {
                Ok(s) => {
                    &&& region@.len() >= size
                    &&& s@ == region@
                    &&& s.spec_name() == name@
                    &&& !s.spec_owner()
                },
                Err(e) => {
                    &&& region@.len() < size
                    &&& e == Error::SizeMismatch(size, region@.len() as usize)
                },
            },
    {
        if region.len() < size {
            return Err(Error::SizeMismatch(size, region.len()));
        }
        Ok(Shm { name: name.to_owned(), bytes: region, owner: false })
    }

    /// A view over the whole region.
    pub fn as_bytes(&self) -> (r: &Vec<u8>)
        ensures
            r@ == self@,
    {
        &self.bytes
    }

    /// A mutable view over the whole region.
    pub fn as_mut_bytes(&mut self) -> (r: &mut Vec<u8>)
        ensures
            r@ == old(self)@,
            final(self)@ == final(r)@,
            final(self).spec_name() == old(self).spec_name(),
            final(self).spec_owner() == old(self).spec_owner(),
    {
        &mut self.bytes
    }

    /// The region's length in bytes.
    pub fn len(&self) -> (n: usize)
        ensures
            n == self@.len(),
    {
        self.bytes.len()
    }

    /// The segment's process-wide name.
    pub fn name(&self) -> (r: &str)
        ensures
            r@ == self.spec_name(),
    {
        self.name.as_str()
    }

    /// Whether this handle owns the named object.
    pub fn owner(&self) -> (r: bool)
        ensures
            r == self.spec_owner(),
    {
        self.owner
    }
}

} // verus!
