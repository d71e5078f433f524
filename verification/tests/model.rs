use toy_blog::ansi::{bar_color, generate_temporary_foreground_color, reset_sequence,
    BasicColor, Rgb, TemporaryStatus, ToAnsiForegroundColorSequence};
use toy_blog::auth::{is_right_token, is_wrong_token};
use toy_blog::model::{AnnoDominiYear, ArticleContent, ArticleId, ListArticleSortPolicy,
    OneOriginTwoDigitsMonth};
use toy_blog::timestamp::Timestamp;

#[test]
fn article_content_round_trips() {
    let c = ArticleContent::new("body".to_string());
    assert_eq!(c.into_inner(), "body");
}

#[test]
fn article_ids_compare_by_characters() {
    assert_eq!(ArticleId::new("a".to_string()), ArticleId::new("a".to_string()));
    assert!(ArticleId::new("a".to_string()) != ArticleId::new("A".to_string()));
}

#[test]
fn year_must_not_be_zero() {
    assert!(AnnoDominiYear::try_from(0).is_err());
    assert_eq!(AnnoDominiYear::try_from(2023).unwrap().into_inner(), 2023);
}

#[test]
fn month_wants_two_padded_digits() {
    assert_eq!(OneOriginTwoDigitsMonth::from_str("01").unwrap().into_inner(), 1);
    assert_eq!(OneOriginTwoDigitsMonth::from_str("09").unwrap().into_inner(), 9);
    assert_eq!(OneOriginTwoDigitsMonth::from_str("12").unwrap().into_inner(), 12);
    assert!(OneOriginTwoDigitsMonth::from_str("1").is_err());
    assert!(OneOriginTwoDigitsMonth::from_str("00").is_err());
    assert!(OneOriginTwoDigitsMonth::from_str("13").is_err());
    assert!(OneOriginTwoDigitsMonth::from_str("ab").is_err());
    assert!(OneOriginTwoDigitsMonth::try_from(12).is_ok());
    assert!(OneOriginTwoDigitsMonth::try_from(13).is_err());
}

#[test]
fn sort_policies_come_from_their_query_words() {
    assert_eq!(ListArticleSortPolicy::from_str("newest"), Some(ListArticleSortPolicy::Newest));
    assert_eq!(ListArticleSortPolicy::from_str("oldest"), Some(ListArticleSortPolicy::Oldest));
    assert_eq!(
        ListArticleSortPolicy::from_str("recent_updated"),
        Some(ListArticleSortPolicy::RecentUpdated),
    );
    assert_eq!(
        ListArticleSortPolicy::from_str("least_recently_updated"),
        Some(ListArticleSortPolicy::LeastRecentlyUpdated),
    );
    assert_eq!(ListArticleSortPolicy::from_str("latest"), None);
}

#[test]
fn token_checks_are_exact() {
    assert!(is_right_token("SECRET-REDACTED", "SECRET-REDACTED"));
    assert!(!is_right_token("SECRET-REDACTED", "secret-redacted"));
    assert!(is_wrong_token("SECRET-REDACTED", ""));
    assert!(!is_wrong_token("", ""));
}

#[test]
fn ansi_sequences_spell_out_exactly() {
    assert_eq!(reset_sequence(), "\u{1b}[0m");
    let grey = Rgb { r: 160, g: 160, b: 160 };
    assert_eq!(grey.to_foreground_color_ansi_sequence(), "\u{1b}[38;2;160;160;160m");
    assert_eq!(bar_color(), grey);
    assert_eq!(BasicColor::Red.to_foreground_color_ansi_sequence(), "\u{1b}[31m");
    assert_eq!(
        generate_temporary_foreground_color(&BasicColor::Green, "hi"),
        "\u{1b}[32mhi\u{1b}[0m",
    );
    assert_eq!(TemporaryStatus::default(), TemporaryStatus { prompt: false, colored: false });
}

#[test]
fn timestamps_render_fixed_width() {
    let t = Timestamp {
        year: 1, month: 1, day: 1, hour: 0, minute: 0, second: 0,
        nanosecond: 0, offset_minutes: -90,
    };
    let mut out: Vec<char> = Vec::new();
    t.render_onto(&mut out);
    let s: String = out.iter().collect();
    assert_eq!(s, "0001-01-01T00:00:00.000000000-01:30");
    let back = toy_blog::timestamp::parse_timestamp(&out).expect("own rendering");
    assert_eq!(back, t);
}

#[test]
fn timestamp_parse_rejects_malformed_text() {
    let cases = [
        "",
        "2023-05-07",
        "2023-05-07T08:09:10",
        "2023-05-07T08:09:10ZZ",
        "2023-05-07T08:09:10Z+00:00",
        "2023-13-07T08:09:10+00:00",
        "2023-05-07T08:09:10.+00:00",
        "2023-05-07T08:09:10.0000000000+00:00",
        "0000-05-07T08:09:10+00:00",
        "2023-05-07T24:09:10+00:00",
        "2023-05-07T08:09:61+00:00",
        "2023-05-07T08:09:10+24:00",
    ];
    for c in cases {
        let chars: Vec<char> = c.chars().collect();
        assert!(toy_blog::timestamp::parse_timestamp(&chars).is_none(), "{c:?}");
    }
}

#[test]
fn timestamp_parse_accepts_utc_as_zulu() {
    // the form chrono writes whenever the host clock runs in UTC
    let chars: Vec<char> = "1994-11-15T12:45:26Z".chars().collect();
    let t = toy_blog::timestamp::parse_timestamp(&chars).expect("upper case");
    assert_eq!(t.offset_minutes, 0);
    assert_eq!((t.hour, t.minute, t.second, t.nanosecond), (12, 45, 26, 0));
    let chars: Vec<char> = "1994-11-15T12:45:26.5z".chars().collect();
    let t = toy_blog::timestamp::parse_timestamp(&chars).expect("lower case, fraction");
    assert_eq!(t.offset_minutes, 0);
    assert_eq!(t.nanosecond, 500_000_000);
}

#[test]
fn timestamp_parse_folds_a_leap_second_back() {
    let chars: Vec<char> = "2016-12-31T23:59:60.25+00:00".chars().collect();
    let t = toy_blog::timestamp::parse_timestamp(&chars).expect("leap second");
    assert_eq!((t.second, t.nanosecond), (59, 999_999_999));
    let earlier: Vec<char> = "2016-12-31T23:59:59.9+00:00".chars().collect();
    let earlier = toy_blog::timestamp::parse_timestamp(&earlier).unwrap();
    assert!(earlier.le_exec(&t));
}
