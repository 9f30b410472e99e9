use covers::{
    and_now_youre_in_my_way, applause, beautify, but_now_youre_in_my_way, call_me_maybe,
    dont_ask_me_i_ll, good_i_create_this_and_it_is_lightweight, i_looked_at_you_as,
    i_searched_for_lib_in_the_web, i_threw_a_wish_in, i_wasnt_looking_for_this,
    id_trade_my_soul_for_a_wish, it_rocks, pennies_and_dimes_for_a_kiss,
    so_then_github_please_behold, there_is_my_brand_new_crate, theres_no_success_all,
    to_mock_fn_in_place, to_test_code_dry_avoid_wet, your_stare_was_holding_, Chorus, LyricsMocks,
};
use covers::{lyrics_mocks, pre_chorus};

const ORIGINAL: &str = r#"

    I threw a wish in the well
    Don't ask me I'll never tell
    I looked at you as it fell
    And now you're in my way

    I'd trade my soul for a wish
    Pennies and dimes for a kiss
    I wasn't looking for this
    But now you're in my way

    Your stare was holding
    Ripped jeans, skin was showin'
    Hot night, wind was blowin'
    Where you think you're going baby?

    Hey, I just met you and this is crazy
    But here's my number, so call me maybe
    It's hard to look right at you baby
    But here's my number, so call me maybe

    Encore!

    "#;

#[test]
fn whole_song_matches_the_original_rendition() {
    let args = &["the well", "never", "tell", "it fell"];
    assert_eq!(beautify(&call_me_maybe(args)), beautify(ORIGINAL));
}

#[test]
fn fill_in_words_land_in_their_lines() {
    let args = &["a bucket", "ever", "say", "it dropped"];
    let song = call_me_maybe(args);
    assert!(song.starts_with("I threw a wish in a bucket\n"));
    assert!(song.contains("Don't ask me I'll ever say\n"));
    assert!(song.contains("I looked at you as it dropped\n"));
}

#[test]
fn beautify_trims_and_drops_empty_lines() {
    assert_eq!(beautify("  a \n\n b\t\nc"), "a\nb\nc");
    assert_eq!(beautify(""), "");
    assert_eq!(beautify(" \n \n"), "");
    assert_eq!(beautify("one"), "one");
}

#[test]
fn beautify_strips_carriage_returns() {
    assert_eq!(beautify("a\r\nb\r\n"), "a\nb");
}

#[test]
fn first_stanza_lines() {
    assert_eq!(i_threw_a_wish_in("the well".to_string()), "I threw a wish in the well");
    assert_eq!(dont_ask_me_i_ll("never", "tell"), "Don't ask me I'll never tell");
    let mut it_fell = "it fell".to_string();
    assert_eq!(i_looked_at_you_as(&mut it_fell), "I looked at you as it fell");
    assert_eq!(it_fell, "it fell");
    let pair = and_now_youre_in_my_way();
    assert_eq!(pair.0, "And now you're");
    assert_eq!(pair.1, "in my way");
}

#[test]
fn second_stanza_lines() {
    assert_eq!(id_trade_my_soul_for_a_wish(), "I'd trade my soul for a wish");
    assert_eq!(pennies_and_dimes_for_a_kiss(), "Pennies and dimes for a kiss");
    assert_eq!(i_wasnt_looking_for_this(), "I wasn't looking for this");
    assert_eq!(but_now_youre_in_my_way(), "But now you're in my way");
}

#[test]
fn pre_chorus_lines() {
    assert_eq!(pre_chorus::your_stare_was_holding(), "Your stare was holding");
    assert_eq!(pre_chorus::ripped_jeans_skin_was_showin(), "Ripped jeans, skin was showin'");
    assert_eq!(pre_chorus::hot_night_wind_was_blowin(), "Hot night, wind was blowin'");
    assert_eq!(
        pre_chorus::where_you_think_youre_going_baby(),
        "Where you think you're going baby?"
    );
    assert_eq!(pre_chorus::your_stars_i_am_hoping(), "Your stars, I am hoping,");
}

#[test]
fn chorus_lines() {
    assert_eq!(
        Chorus::hey_i_just_met_you_and_this_is_crazy(),
        "Hey, I just met you and this is crazy"
    );
    let c = Chorus {};
    assert_eq!(c.but_heres_my_number_so_call_me_maybe(), "But here's my number, so call me maybe");
    let c = Chorus {};
    assert_eq!(c.its_hard_to_look_right_at_you_baby(), "It's hard to look right at you baby");
    let mut c = Chorus {};
    assert_eq!(
        c.but_here_is_my_number_so_call_me_maybe(),
        "But here's my number, so call me maybe"
    );
    assert_eq!(Chorus::struct_macros_trait_and_thats_all(), "Struct, macros, trait and that's all");
    let c = Chorus {};
    assert_eq!(c.your_test_environment_is_independent(), "Your test environment is independent");
    assert_eq!(Chorus::test_your_code_do_it_safely(), "Test your code, do it safely");
    assert_eq!(applause(), "Encore!");
}

#[test]
fn substitute_lines() {
    assert_eq!(i_searched_for_lib_in_the_web("the Web".to_string()), "I searched for lib in the Web");
    assert_eq!(to_test_code_dry_avoid_wet("Dry", "Wet"), "To test code Dry, avoid Wet");
    let mut crates_fail = "crates fail".to_string();
    assert_eq!(theres_no_success_all(&mut crates_fail), "There's no success, all crates fail");
    let pair = to_mock_fn_in_place();
    assert_eq!(pair.0, "To mock");
    assert_eq!(pair.1, "'fn' in place");
    assert_eq!(so_then_github_please_behold(), "So then GitHub please behold");
    assert_eq!(there_is_my_brand_new_crate(), "There is my brand new crate");
    assert_eq!(your_stare_was_holding_(), "Your stare was holding");
    assert_eq!(
        good_i_create_this_and_it_is_lightweight(),
        "Good, I create this and it is lightweight"
    );
    assert_eq!(it_rocks(), "It rocks!");
    assert_eq!(lyrics_mocks::mockall_moctopus_too_bold(), "'Mockall', 'moctopus' - too bold");
    let c = Chorus {};
    assert_eq!(
        lyrics_mocks::its_hard_to_test_crate_creating_traits(&c),
        "It's hard to test crate creating traits"
    );
    assert_eq!(lyrics_mocks::let_my_project_growing(), "Let my project growing");
    let mut c = Chorus {};
    assert_eq!(
        LyricsMocks::so_here_is_covers_mock_functions_daily(&mut c),
        "So here is 'covers', mock functions daily"
    );
}
