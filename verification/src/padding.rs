use vstd::prelude::*;

verus! {

/// An `int` laid out as a 16-byte slot of a uniform buffer: the value, then three padding words.
#[derive(Debug, Clone, Copy)]
pub struct IntPadding {
    pub int_val: i32,
    pub padding: [u32; 3],
}

impl Default for IntPadding {
    /// A zero value with zero padding.
    fn default() -> (p: Self)
        ensures
            p.int_val == 0,
            p.padding@ == seq![0u32, 0u32, 0u32],
    {
        IntPadding { int_val: 0, padding: [0, 0, 0] }
    }
}

} // verus!
