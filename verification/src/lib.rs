//! A source-to-source transformer that rewrites a tagged function
//! declaration into a dispatching wrapper: the original body is kept under a
//! prefixed name, and a new function with the original name routes each call
//! either to a designated substitute ("mock") implementation or to the
//! renamed original, selected by build configuration.

pub mod chars;
pub mod directive;
pub mod laws;
pub mod lyrics;
pub mod lyrics_mocks;
pub mod pre_chorus;
pub mod rewrite;
pub mod token;

pub use token::{Delim, Token, TokView};
pub use lyrics::{
    and_now_youre_in_my_way, applause, beautify, but_now_youre_in_my_way, call_me_maybe,
    dont_ask_me_i_ll, good_i_create_this_and_it_is_lightweight, i_looked_at_you_as,
    i_searched_for_lib_in_the_web, i_threw_a_wish_in, i_wasnt_looking_for_this,
    id_trade_my_soul_for_a_wish, it_rocks, pennies_and_dimes_for_a_kiss, so_then_github_please_behold,
    there_is_my_brand_new_crate, theres_no_success_all, to_mock_fn_in_place,
    to_test_code_dry_avoid_wet, your_stare_was_holding_, Chorus, LyricsMocks,
};
