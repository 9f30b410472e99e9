//! Substitute lines kept in a module of their own.

use vstd::prelude::*;
use crate::lyrics::Chorus;

verus! {

pub fn mockall_moctopus_too_bold() -> (r: String)
    ensures
        r@ == "'Mockall', 'moctopus' - too bold"@,
{
    "'Mockall', 'moctopus' - too bold".to_owned()
}

pub fn its_hard_to_test_crate_creating_traits(_self: &Chorus) -> (r: String)
    ensures
        r@ == "It's hard to test crate creating traits"@,
{
    "It's hard to test crate creating traits".to_owned()
}

pub fn let_my_project_growing() -> (r: String)
    ensures
        r@ == "Let my project growing"@,
{
    "Let my project growing".to_owned()
}

} // verus!
