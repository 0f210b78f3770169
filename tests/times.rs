use zipper::times::{parse_time, split_words, window_ok, CivilDate, ERR_MSG};

fn jan27() -> CivilDate {
    CivilDate { year: 2021, month: 1, day: 27 }
}

#[test]
fn words_split_on_ascii_space() {
    assert_eq!(split_words("  a\tbc  d \n"), vec!["a", "bc", "d"]);
    assert!(split_words(" \t ").is_empty());
    assert_eq!(split_words("x"), vec!["x"]);
}

#[test]
fn date_and_time() {
    assert_eq!(parse_time("2021-01-27 7:20:35", 0, jan27()), Ok(1_611_732_035));
    assert_eq!(parse_time("1/27/2021 7:20:35", 0, jan27()), Ok(1_611_732_035));
    assert_eq!(parse_time("  2021-01-27   7:20  ", 0, jan27()), Ok(1_611_732_000));
}

#[test]
fn date_alone_is_midnight() {
    assert_eq!(parse_time("2021-01-27", 0, jan27()), Ok(1_611_705_600));
    assert_eq!(parse_time("1/27/2021", 3600, jan27()), Ok(1_611_702_000));
}

#[test]
fn time_alone_is_today() {
    assert_eq!(parse_time("7:20", 0, jan27()), Ok(1_611_732_000));
    assert_eq!(parse_time("7:20:35", -3600, jan27()), Ok(1_611_735_635));
    let jan1 = CivilDate { year: 2021, month: 1, day: 1 };
    assert_eq!(parse_time("0:00", 0, jan1), Ok(1_609_459_200));
}

#[test]
fn bad_input_is_an_error() {
    assert_eq!(parse_time("yesterday", 0, jan27()), Err(ERR_MSG));
    assert_eq!(parse_time("2021-01-27 7:20 pm", 0, jan27()), Err(ERR_MSG));
    assert_eq!(parse_time("", 0, jan27()), Err(ERR_MSG));
    assert_eq!(parse_time("2021-13-01", 0, jan27()), Err(ERR_MSG));
    assert!(ERR_MSG.starts_with("illegal date/time format"));
}

#[test]
fn time_windows() {
    assert!(window_ok(None, None));
    assert!(window_ok(Some(5), None));
    assert!(window_ok(None, Some(5)));
    assert!(window_ok(Some(4), Some(5)));
    assert!(!window_ok(Some(5), Some(5)));
    assert!(!window_ok(Some(6), Some(5)));
}
