//! Data memories of the virtual machine.

use vstd::prelude::*;

verus! {

/// A word-addressed data memory. Its content is a sequence of words;
/// addresses are positions in it.
pub trait Memory {
    /// The words of the memory, by address.
    spec fn contents(&self) -> Seq<i32>;

    /// The word at `address`.
    fn read(&self, address: usize) -> (r: i32)
        requires
            address < self.contents().len(),
        ensures
            r == self.contents()[address as int],
    ;

    /// Writes `value` at `address`; every other word stays.
    fn store(&mut self, address: usize, value: i32)
        requires
            address < old(self).contents().len(),
        ensures
            final(self).contents() == old(self).contents().update(address as int, value),
    ;

    /// The number of words.
    fn size(&self) -> (r: usize)
        ensures
            r == self.contents().len(),
    ;
}

/// A memory of `N` words held in an array.
pub struct FixedMemory<const N: usize> {
    data: [i32; N],
}

/// A memory whose size is chosen when it is made.
pub struct DynamicMemory {
    data: Vec<i32>,
}

impl<const N: usize> FixedMemory<N> {
    /// A memory of `N` zero words.
    pub fn new() -> (r: Self)
        ensures
            r.contents() == Seq::new(N as nat, |i: int| 0i32),
    {
        let r = Self { data: [0;N] };
        assert(r.contents() =~= Seq::new(N as nat, |i: int| 0i32));
        r
    }
}

impl<const N: usize> Memory for FixedMemory<N> {
    closed spec fn contents(&self) -> Seq<i32> {
        self.data@
    }

    fn read(&self, address: usize) -> (r: i32) {
        self.data[address]
    }

    fn store(&mut self, address: usize, value: i32) {
        self.data.set(address, value);
    }

    fn size(&self) -> (r: usize) {
        N
    }
}

impl DynamicMemory {
    /// A memory of `size` zero words.
    pub fn new(size: usize) -> (r: Self)
        ensures
            r.contents() == Seq::new(size as nat, |i: int| 0i32),
    {
        let r = Self { data: vec![0; size] };
        assert(r.contents() =~= Seq::new(size as nat, |i: int| 0i32));
        r
    }

    /// A memory of `size` words, each `default`.
    pub fn new_with_default(size: usize, default: i32) -> (r: Self)
        ensures
            r.contents() == Seq::new(size as nat, |i: int| default),
    {
        let r = Self { data: vec![default; size] };
        assert(r.contents() =~= Seq::new(size as nat, |i: int| default));
        r
    }

    /// A memory of `size` words that starts with `data` and is `default`
    /// after it.
    pub fn from_data(size: usize, default: i32, data: &[i32]) -> (r: Self)
        requires
            data@.len() <= size,
        ensures
            r.contents() == data@ + Seq::new((size - data@.len()) as nat, |i: int| default),
    {
        let mut memory = vec![default; size];
        let mut i: usize = 0;
        while i < data.len()
            invariant
                data@.len() <= size,
                i <= data@.len(),
                memory@.len() == size,
                forall|k: int| 0 <= k < i ==> memory@[k] == data@[k],
                forall|k: int| i <= k < size ==> memory@[k] == default,
            decreases data@.len() - i,
        {
            memory.set(i, data[i]);
            i = i + 1;
        }
        let r = Self { data: memory };
        assert(r.contents() =~= data@ + Seq::new((size - data@.len()) as nat, |i: int| default));
        r
    }
}

impl Memory for DynamicMemory {
    closed spec fn contents(&self) -> Seq<i32> {
        self.data@
    }

    fn read(&self, address: usize) -> (r: i32) {
        self.data[address]
    }

    fn store(&mut self, address: usize, value: i32) {
        self.data.set(address, value);
    }

    fn size(&self) -> (r: usize) {
        self.data.len()
    }
}

} // verus!
