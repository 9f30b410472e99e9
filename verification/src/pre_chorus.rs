//! The pre-chorus lines of the demonstration song.

use vstd::prelude::*;

verus! {

pub fn your_stare_was_holding() -> (r: String)
    ensures
        r@ == "Your stare was holding"@,
{
    "Your stare was holding".to_owned()
}

pub fn ripped_jeans_skin_was_showin() -> (r: String)
    ensures
        r@ == "Ripped jeans, skin was showin'"@,
{
    "Ripped jeans, skin was showin'".to_owned()
}

pub fn hot_night_wind_was_blowin() -> (r: String)
    ensures
        r@ == "Hot night, wind was blowin'"@,
{
    "Hot night, wind was blowin'".to_owned()
}

pub fn where_you_think_youre_going_baby() -> (r: String)
    ensures
        r@ == "Where you think you're going baby?"@,
{
    "Where you think you're going baby?".to_owned()
}

/// A substitute kept close to the lines it replaces.
pub fn your_stars_i_am_hoping() -> (r: String)
    ensures
        r@ == "Your stars, I am hoping,"@,
{
    "Your stars, I am hoping,".to_owned()
}

} // verus!
