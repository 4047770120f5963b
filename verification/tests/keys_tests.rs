use revault_cli::keys::{
    access_entry_name, civil_from_days, create_path, default_session_duration, format_system_time_utc, format_unix_ms_utc, parse_duration,
};
use revault_cli::messages::ApiError;

fn invalid_input(r: Result<u64, ApiError>) -> String {
    match r {
        Err(ApiError::InvalidInput(m)) => m,
        other => panic!("unexpected {other:?}"),
    }
}

#[test]
fn publish_expiry_uses_human_readable_utc_time() {
    assert_eq!(format_unix_ms_utc(0), "1970/01/01 00:00 UTC");
    assert_eq!(format_unix_ms_utc(1_783_032_923_000), "2026/07/02 22:55 UTC");
}

#[test]
fn system_times_before_the_epoch_show_a_dash() {
    assert_eq!(format_system_time_utc(None), "-");
    assert_eq!(format_system_time_utc(Some(86_399)), "1970/01/01 23:59 UTC");
    assert_eq!(format_system_time_utc(Some(951_782_400)), "2000/02/29 00:00 UTC");
}

#[test]
fn civil_dates_follow_the_gregorian_calendar() {
    assert_eq!(civil_from_days(0), (1970, 1, 1));
    assert_eq!(civil_from_days(19_723), (2024, 1, 1));
    assert_eq!(civil_from_days(11_016), (2000, 2, 29));
    assert_eq!(civil_from_days(-1), (1969, 12, 31));
}

#[test]
fn durations_accept_units_and_reject_the_rest() {
    assert_eq!(parse_duration("90").unwrap(), 90);
    assert_eq!(parse_duration("30m").unwrap(), 1_800);
    assert_eq!(parse_duration(" 2h ").unwrap(), 7_200);
    assert_eq!(parse_duration("1days").unwrap(), 86_400);
    assert_eq!(invalid_input(parse_duration("  ")), "duration cannot be empty");
    assert_eq!(invalid_input(parse_duration("0s")), "duration must be greater than zero");
    assert_eq!(invalid_input(parse_duration("5w")), "invalid duration unit: w");
    assert_eq!(invalid_input(parse_duration("abc")), "invalid duration: abc");
    assert_eq!(
        invalid_input(parse_duration("18446744073709551615d")),
        "duration is too large: 18446744073709551615d"
    );
}

#[test]
fn access_labels_lose_their_kind_prefix() {
    assert_eq!(access_entry_name("identity:alice"), "alice");
    assert_eq!(access_entry_name("contact:bob"), "bob");
    assert_eq!(access_entry_name("carol"), "carol");
}

#[test]
fn new_lockboxes_get_the_lbox_extension() {
    assert_eq!(create_path("secrets"), "secrets.lbox");
    assert_eq!(create_path("notes.txt"), "notes.txt");
}

#[test]
fn session_durations_come_from_the_environment_or_configuration() {
    assert_eq!(default_session_duration(Some("5m"), Some("open_duration: 1h")).unwrap(), Some(300));
    assert_eq!(default_session_duration(None, None).unwrap(), None);
    assert_eq!(
        default_session_duration(None, Some("# defaults\nother: 3\nsession_duration: \"'2h'\" # two hours\nopen_duration: 1m\n"))
            .unwrap(),
        Some(7_200)
    );
    assert_eq!(default_session_duration(None, Some("nothing: here\n")).unwrap(), None);
    assert_eq!(invalid_input(default_session_duration(None, Some("open_duration: soon")).map(|v| v.unwrap_or(0))), "invalid duration: soon");
    assert_eq!(invalid_input(default_session_duration(Some("0"), None).map(|v| v.unwrap_or(0))), "duration must be greater than zero");
}

#[test]
fn civil_dates_hold_back_to_year_zero() {
    assert_eq!(civil_from_days(-719_468), (0, 3, 1));
    assert_eq!(civil_from_days(-719_469), (0, 2, 29));
    assert_eq!(civil_from_days(-1), (1969, 12, 31));
    assert_eq!(civil_from_days(59), (1970, 3, 1));
    assert_eq!(civil_from_days(10_957), (2000, 1, 1));
    assert_eq!(civil_from_days(2_932_896), (9999, 12, 31));
}

#[test]
fn day_numbers_step_through_civil_dates() {
    assert_eq!(civil_from_days(0), (1970, 1, 1));
    assert_eq!(civil_from_days(58), (1970, 2, 28));
    assert_eq!(civil_from_days(59), (1970, 3, 1));
    assert_eq!(civil_from_days(11016), (2000, 2, 29));
    assert_eq!(civil_from_days(11017), (2000, 3, 1));
    assert_eq!(civil_from_days(-1), (1969, 12, 31));
}

#[test]
fn seconds_and_milliseconds_read_as_the_same_moment() {
    assert_eq!(format_system_time_utc(Some(1_700_000_000)), format_unix_ms_utc(1_700_000_000_999));
    assert_eq!(format_system_time_utc(None), "-");
}

#[test]
fn the_era_formula_repeats_a_leap_day_below_year_zero_march() {
    assert_eq!(civil_from_days(-719468), (0, 3, 1));
    assert_eq!(civil_from_days(-719469), (0, 2, 29));
    assert_eq!(civil_from_days(-719470), (0, 2, 29));
}
