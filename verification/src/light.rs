use vstd::prelude::*;

verus! {

/// The kind of a light, numbered from 0 in the order of the variants.
#[allow(non_camel_case_types)]
#[derive(PartialEq, Eq, Structural, Debug, Clone, Copy)]
pub enum LightType {
    DIRECTIONAL,
    POINT,
    SPOT,
}

impl LightType {
    /// The number of the kind.
    pub open spec fn spec_number(self) -> u32 {
        match self {
            LightType::DIRECTIONAL => 0,
            LightType::POINT => 1,
            LightType::SPOT => 2,
        }
    }

    /// The number of the kind, as a light's record stores it.
    pub fn number(&self) -> (n: u32)
        ensures
            n == self.spec_number(),
    {
        match self {
            LightType::DIRECTIONAL => 0,
            LightType::POINT => 1,
            LightType::SPOT => 2,
        }
    }

    /// The kind that a number stands for; none above 2. Each kind comes back from its number.
    pub fn from_number(n: u32) -> (r: Option<LightType>)
        ensures
            match r {
                Some(t) => t.spec_number() == n,
                None => n > 2,
            },
            forall|t: LightType| t.spec_number() == n ==> r == Some(t),
    {
        match n {
            0 => Some(LightType::DIRECTIONAL),
            1 => Some(LightType::POINT),
            2 => Some(LightType::SPOT),
            _ => None,
        }
    }
}

} // verus!
