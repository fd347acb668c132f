use vstd::prelude::*;

verus! {

/// One dimension of a multi-array layout: a label, the extent of the
/// dimension, and the stride between its consecutive elements.
pub struct MultiArrayDimension {
    pub label: String,
    pub size: u32,
    pub stride: u32,
}

/// The layout of a multi-array: its dimensions, outermost first, and the
/// offset of the first element in the flat data.
pub struct MultiArrayLayout {
    pub dim: Vec<MultiArrayDimension>,
    pub data_offset: u32,
}

/// A multi-array of unsigned 64-bit integers: a layout plus the flat data.
pub struct UInt64MultiArray {
    pub layout: MultiArrayLayout,
    pub data: Vec<u64>,
}

impl UInt64MultiArray {
    /// A fresh, empty multi-array: no dimensions, zero offset, no data.
    pub fn new() -> (r: Option<UInt64MultiArray>)
        ensures
            (r matches Some(m) ==> m.layout.dim@.len() == 0 && m.layout.data_offset == 0
                && m.data@.len() == 0),
            r is Some,
    {
        Some(
            UInt64MultiArray {
                layout: MultiArrayLayout { dim: Vec::new(), data_offset: 0 },
                data: Vec::new(),
            },
        )
    }
}

/// A sequence of multi-arrays.
pub struct UInt64MultiArraySequence {
    elements: Vec<UInt64MultiArray>,
}

impl UInt64MultiArraySequence {
    /// How many multi-arrays the sequence holds.
    pub closed spec fn spec_len(&self) -> nat {
        self.elements@.len()
    }

    /// A sequence of `size` fresh, empty multi-arrays.
    pub fn new(size: usize) -> (r: Option<UInt64MultiArraySequence>)
        ensures
            (r matches Some(s) ==> s.spec_len() == size),
            r is Some,
    {
        let mut elements: Vec<UInt64MultiArray> = Vec::new();
        let mut i: usize = 0;
        while i < size
            invariant
                i <= size,
                elements@.len() == i,
            decreases size - i,
        {
            match UInt64MultiArray::new() {
                Some(m) => {
                    elements.push(m);
                },
                None => {
                    return None;
                },
            }
            i += 1;
        }
        Some(UInt64MultiArraySequence { elements })
    }

    /// The elements as a slice.
    pub fn as_slice(&self) -> (r: Option<&[UInt64MultiArray]>)
        ensures
            (r matches Some(s) ==> s@.len() == self.spec_len()),
            r is Some,
    {
        Some(self.elements.as_slice())
    }
}

} // verus!
