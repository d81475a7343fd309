use activity_roles::error::StoreError;
use activity_roles::query::{count_reply, query_reply, query_target, recorded_count};
use activity_roles::text::{append_decimal, default_log_filter};

#[test]
fn the_first_mention_is_asked_about() {
    assert_eq!(query_target(Some(12), 7), 12);
}

#[test]
fn who_mentions_nobody_asks_about_themselves() {
    assert_eq!(query_target(None, 7), 7);
}

#[test]
fn a_user_without_a_record_has_sent_nothing() {
    assert_eq!(recorded_count(None), 0);
    assert_eq!(recorded_count(Some(0)), 0);
    assert_eq!(recorded_count(Some(31)), 31);
}

#[test]
fn the_reply_names_the_user_and_the_count() {
    assert_eq!(count_reply("bob", 42), "bob has sent 42 message(s)");
}

#[test]
fn the_reply_writes_zero_as_one_digit() {
    assert_eq!(count_reply("bob", 0), "bob has sent 0 message(s)");
}

#[test]
fn the_reply_writes_counts_in_decimal() {
    assert_eq!(count_reply("a", 1), "a has sent 1 message(s)");
    assert_eq!(count_reply("a", 9), "a has sent 9 message(s)");
    assert_eq!(count_reply("a", 10), "a has sent 10 message(s)");
    assert_eq!(count_reply("a", 1005), "a has sent 1005 message(s)");
    assert_eq!(count_reply("a", 1234567890), "a has sent 1234567890 message(s)");
    assert_eq!(count_reply("a", u64::MAX), "a has sent 18446744073709551615 message(s)");
}

#[test]
fn the_reply_keeps_the_name_as_it_is() {
    assert_eq!(count_reply("", 3), " has sent 3 message(s)");
    assert_eq!(count_reply("Zoë 42", 3), "Zoë 42 has sent 3 message(s)");
}

#[test]
fn the_target_may_be_any_kind_of_user() {
    let author = String::from("author");
    let mentioned = String::from("mentioned");
    assert_eq!(query_target(Some(&mentioned), &author), "mentioned");
    assert_eq!(query_target(None, &author), "author");
}

#[test]
fn a_count_is_reported_as_it_is() {
    assert_eq!(query_reply("bob", Ok(42)), "bob has sent 42 message(s)");
    assert_eq!(query_reply("bob", Ok(0)), "bob has sent 0 message(s)");
}

#[test]
fn a_failure_is_reported_as_a_failure() {
    assert_eq!(
        query_reply("bob", Err(StoreError::Unavailable)),
        "The message count of bob is unavailable"
    );
    assert_eq!(
        query_reply("bob", Err(StoreError::Saturated)),
        "The message count of bob is unavailable"
    );
}

#[test]
fn a_number_is_appended_in_decimal() {
    let mut text = String::from("n=");
    append_decimal(&mut text, 0);
    assert_eq!(text, "n=0");
    append_decimal(&mut text, 907);
    assert_eq!(text, "n=0907");
    append_decimal(&mut text, 1000);
    assert_eq!(text, "n=09071000");
}

#[test]
fn the_default_log_filter_names_the_package() {
    assert_eq!(default_log_filter("activity_roles"), "activity_roles=INFO");
}

#[test]
fn the_default_log_filter_writes_hyphens_as_underscores() {
    assert_eq!(default_log_filter("my-chat-bot"), "my_chat_bot=INFO");
    assert_eq!(default_log_filter("-a--b-"), "_a__b_=INFO");
}

#[test]
fn the_default_log_filter_keeps_every_other_character() {
    assert_eq!(default_log_filter(""), "=INFO");
    assert_eq!(default_log_filter("Zoë_1"), "Zoë_1=INFO");
}
