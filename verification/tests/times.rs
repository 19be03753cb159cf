use multi_track_split::time::{format_time, parse_time};

/// Seconds out of the parts of a typed time.
fn seconds_of(text: &str) -> Option<f64> {
    let parts = parse_time(text)?;
    let mut total = 0.0;
    for n in &parts.leading {
        total = total * 60.0 + *n as f64;
    }
    let last: f64 = parts.seconds.parse().ok()?;
    if last < 0.0 || !last.is_finite() {
        return None;
    }
    Some(total * 60.0 + last)
}

/// A time in seconds as shown.
fn shown(secs: f64) -> String {
    let secs = secs.max(0.0);
    let millis = ((secs - secs.floor()) * 1000.0).round() as u64;
    format_time(secs as u64, millis)
}

#[test]
fn time_parsing() {
    assert_eq!(seconds_of("90"), Some(90.0));
    assert_eq!(seconds_of("1:30"), Some(90.0));
    assert_eq!(seconds_of("01:30.500"), Some(90.5));
    assert_eq!(seconds_of("1:01:30"), Some(3690.0));
    assert_eq!(seconds_of(" 0:05 "), Some(5.0));
    assert_eq!(seconds_of("abc"), None);
    assert_eq!(seconds_of("1:2:3:4"), None);
    assert_eq!(seconds_of("-5"), None);
    assert_eq!(shown(90.5), "01:30.500");
    assert_eq!(shown(3690.0), "1:01:30.000");
    assert_eq!(seconds_of(&shown(1234.567)), Some(1234.567));
}

#[test]
fn parts_of_times() {
    let parts = parse_time(" 1 : +2 : 3.5 ").unwrap();
    assert_eq!(parts.leading, [1, 2]);
    assert_eq!(parts.seconds, "3.5");
    assert!(parse_time("1::2").is_none());
    assert!(parse_time("-1:30").is_none());
    assert!(parse_time("18446744073709551616:0").is_none());
    assert_eq!(parse_time("18446744073709551615:0").unwrap().leading, [u64::MAX]);
    for refused in [
        "", "abc", "1:", "1e", "e5", ".", "+", "-5", "0:-0.1", "1.2.3", "1,5", "0x10", "- 5",
        "inf", "Infinity", "nan",
    ] {
        assert!(parse_time(refused).is_none(), "{refused}");
    }
    for read in ["5.", ".5", "-0", "-0.0", "1e3", "2E-1", "+7", "007"] {
        assert_eq!(parse_time(read).unwrap().seconds, read);
    }
}

#[test]
fn rounded_up_thousandths_carry() {
    assert_eq!(shown(59.9996), "01:00.000");
    assert_eq!(shown(1.9996), "00:02.000");
    assert_eq!(shown(-3.0), "00:00.000");
    assert_eq!(shown(3599.9996), "1:00:00.000");
    assert_eq!(format_time(360000, 7), "100:00:00.007");
    assert_eq!(format_time(u64::MAX, 1000), "5124095576030431:00:16.000");
}
