use vstd::prelude::*;

verus! {

/// Whether a broker feature is switched on, as the broker stores it.
#[derive(Clone, Copy, Debug, PartialEq, Eq, Structural)]
pub enum AvailableFlag {
    Enable,
    Disable,
}

impl Default for AvailableFlag {
    fn default() -> (r: AvailableFlag)
        ensures
            r == AvailableFlag::Disable,
    {
        AvailableFlag::Disable
    }
}

pub open spec fn flag_byte(flag: AvailableFlag) -> u8 {
    match flag {
        AvailableFlag::Enable => 1,
        AvailableFlag::Disable => 0,
    }
}

impl From<AvailableFlag> for u8 {
    fn from(flag: AvailableFlag) -> (r: u8) {
        match flag {
            AvailableFlag::Enable => 1,
            AvailableFlag::Disable => 0,
        }
    }
}

impl vstd::std_specs::convert::FromSpecImpl<AvailableFlag> for u8 {
    open spec fn obeys_from_spec() -> bool {
        true
    }

    open spec fn from_spec(flag: AvailableFlag) -> u8 {
        flag_byte(flag)
    }
}

/// Whether a feature is switched on, as the admin interface sends it.
#[derive(Clone, Copy, Debug, PartialEq, Eq, Structural)]
pub enum Available {
    Enable,
    Disable,
}

pub fn available_flag(flag: Available) -> (r: AvailableFlag)
    ensures
        r == match flag {
            Available::Enable => AvailableFlag::Enable,
            Available::Disable => AvailableFlag::Disable,
        },
{
    match flag {
        Available::Enable => AvailableFlag::Enable,
        Available::Disable => AvailableFlag::Disable,
    }
}

} // verus!
