use vstd::prelude::*;

verus! {

/// Element data types that tensors of the engine may hold.
#[derive(Clone, Copy, Debug, PartialEq, Eq, Structural)]
pub enum DataType {
    U8,
    U32,
    F16,
    BF16,
    F32,
}

impl DataType {
    /// Size in bytes of one element.
    pub open spec fn size_spec(self) -> nat {
        match self {
            DataType::U8 => 1,
            DataType::U32 => 4,
            DataType::F16 => 2,
            DataType::BF16 => 2,
            DataType::F32 => 4,
        }
    }

    pub fn size(&self) -> (r: usize)
        ensures
            r == self.size_spec(),
    {
        match self {
            DataType::U8 => 1,
            DataType::U32 => 4,
            DataType::F16 => 2,
            DataType::BF16 => 2,
            DataType::F32 => 4,
        }
    }
}

} // verus!
