use prmt::modules::time::time_from_reading;
use prmt::detector::ModuleContext;
use prmt::error::PromptError;
use prmt::modules::time::{clamp_component, FormatSpec, TimeModule, TimeParts};
use regex::Regex;

#[test]
fn test_time_module_default_format() {
    let module = TimeModule;
    let context = ModuleContext::default();

    let result = module.render("", &context).unwrap();
    assert!(result.is_some());
    let time = result.unwrap();
    assert_eq!(time.len(), 5);
    assert!(time.contains(':'));

    let re = Regex::new(r"^\d{2}:\d{2}$").unwrap();
    assert!(re.is_match(&time), "Expected HH:MM format, got: {}", time);
}

#[test]
fn test_time_module_24h_format() {
    let module = TimeModule;
    let context = ModuleContext::default();

    let result = module.render("24h", &context).unwrap();
    assert!(result.is_some());
    let time = result.unwrap();
    assert_eq!(time.len(), 5);

    let re = Regex::new(r"^\d{2}:\d{2}$").unwrap();
    assert!(re.is_match(&time), "Expected HH:MM format, got: {}", time);
}

#[test]
fn test_time_module_24hs_format() {
    let module = TimeModule;
    let context = ModuleContext::default();

    let re = Regex::new(r"^\d{2}:\d{2}:\d{2}$").unwrap();
    for format in &["24hs", "24HS"] {
        let result = module.render(format, &context).unwrap();
        assert!(result.is_some());
        let time = result.unwrap();
        assert_eq!(time.len(), 8);

        assert!(
            re.is_match(&time),
            "Expected HH:MM:SS format for {}, got: {}",
            format,
            time
        );
    }
}

#[test]
fn test_time_module_12h_format() {
    let module = TimeModule;
    let context = ModuleContext::default();

    let re = Regex::new(r"^\d{2}:\d{2}(AM|PM)$").unwrap();
    for format in &["12h", "12H"] {
        let result = module.render(format, &context).unwrap();
        assert!(result.is_some());
        let time = result.unwrap();

        assert!(
            re.is_match(&time),
            "Expected hh:MMAM/PM format for {}, got: {}",
            format,
            time
        );

        assert!(time.ends_with("AM") || time.ends_with("PM"));
    }
}

#[test]
fn test_time_module_12hs_format() {
    let module = TimeModule;
    let context = ModuleContext::default();

    let re = Regex::new(r"^\d{2}:\d{2}:\d{2}(AM|PM)$").unwrap();
    for format in &["12hs", "12HS"] {
        let result = module.render(format, &context).unwrap();
        assert!(result.is_some());
        let time = result.unwrap();

        assert!(
            re.is_match(&time),
            "Expected hh:MM:SSAM/PM format for {}, got: {}",
            format,
            time
        );

        assert!(time.ends_with("AM") || time.ends_with("PM"));
    }
}

#[test]
fn test_time_module_unknown_format_returns_error() {
    let module = TimeModule;
    let context = ModuleContext::default();

    let unknown_formats = vec!["invalid", "xyz", "13h", "25h", "random"];

    for format in unknown_formats {
        let result = module.render(format, &context);
        assert!(
            result.is_err(),
            "Unknown format '{}' should return error",
            format
        );
    }
}

#[test]
fn test_time_module_valid_and_invalid_formats() {
    let module = TimeModule;
    let context = ModuleContext::default();

    let valid_formats = vec!["", "24h", "24hs", "24HS", "12h", "12H", "12hs", "12HS"];
    let invalid_formats = vec!["invalid", "test", "13h", "random"];

    for format in valid_formats {
        let result = module.render(format, &context);
        assert!(result.is_ok(), "Valid format '{}' should succeed", format);
        let value = result.unwrap();
        assert!(
            value.is_some(),
            "Time module should return Some for valid format: {}",
            format
        );
    }

    for format in invalid_formats {
        let result = module.render(format, &context);
        assert!(
            result.is_err(),
            "Invalid format '{}' should return error",
            format
        );
    }
}

#[test]
fn test_time_module_hour_range() {
    let module = TimeModule;
    let context = ModuleContext::default();

    let result_24h = module.render("24h", &context).unwrap();
    assert!(result_24h.is_some());
    let time_24h = result_24h.unwrap();
    let hour = &time_24h[0..2].parse::<u32>().unwrap();
    assert!(*hour <= 23, "24h format hour should be 0-23, got: {}", hour);

    let result_12h = module.render("12h", &context).unwrap();
    assert!(result_12h.is_some());
    let time_12h = result_12h.unwrap();
    let hour = &time_12h[0..2].parse::<u32>().unwrap();
    assert!(
        *hour >= 1 && *hour <= 12,
        "12h format hour should be 1-12, got: {}",
        hour
    );
}

#[test]
fn time_parts_from_timestamp_and_offset() {
    // 1970-01-02 13:45:07 UTC
    let secs = 86400 + 13 * 3600 + 45 * 60 + 7;
    let utc = TimeParts::from_timestamp(secs, 0);
    assert_eq!(utc, TimeParts { hour24: 13, minute: 45, second: 7 });
    let ahead = TimeParts::from_timestamp(secs, 2 * 3600);
    assert_eq!(ahead, TimeParts { hour24: 15, minute: 45, second: 7 });
    let behind = TimeParts::from_timestamp(secs, -14 * 3600);
    assert_eq!(behind, TimeParts { hour24: 23, minute: 45, second: 7 });
    // Before the epoch in local time.
    let early = TimeParts::from_timestamp(60, -3600);
    assert_eq!(early, TimeParts { hour24: 23, minute: 1, second: 0 });
}

#[test]
fn time_format_specs_render_exact_text() {
    let afternoon = TimeParts { hour24: 15, minute: 4, second: 9 };
    assert_eq!(FormatSpec::Hm24.render(&afternoon), "15:04");
    assert_eq!(FormatSpec::Hms24.render(&afternoon), "15:04:09");
    assert_eq!(FormatSpec::Hm12.render(&afternoon), "03:04PM");
    assert_eq!(FormatSpec::Hms12.render(&afternoon), "03:04:09PM");
    let midnight = TimeParts { hour24: 0, minute: 0, second: 0 };
    assert_eq!(FormatSpec::Hm12.render(&midnight), "12:00AM");
    let noon = TimeParts { hour24: 12, minute: 30, second: 0 };
    assert_eq!(FormatSpec::Hm12.render(&noon), "12:30PM");
    assert_eq!(noon.hour12(), (12, "PM"));
    assert_eq!(midnight.hour12(), (12, "AM"));
    let odd = TimeParts { hour24: 200, minute: 7, second: 0 };
    assert_eq!(FormatSpec::Hm24.render(&odd), "200:07");
}

#[test]
fn time_unknown_format_reports_valid_formats() {
    match TimeModule.render("13h", &ModuleContext::default()) {
        Err(PromptError::InvalidFormat { module, format, valid_formats }) => {
            assert_eq!(module, "time");
            assert_eq!(format, "13h");
            assert_eq!(valid_formats, "24h (default), 12h, 12H, 12hs, 12HS, 24hs, 24HS");
        }
        other => panic!("unexpected result: {other:?}"),
    }
}

#[test]
fn clamp_component_limits_values() {
    assert_eq!(clamp_component(-3, 23), 0);
    assert_eq!(clamp_component(30, 23), 23);
    assert_eq!(clamp_component(17, 23), 17);
}

#[test]
fn time_from_a_reading_uses_the_offset() {
    // 1 hour, 1 minute and 1 second after the epoch.
    assert_eq!(time_from_reading(FormatSpec::Hms24, Some(3661), 0).unwrap().as_deref(), Some("01:01:01"));
    assert_eq!(time_from_reading(FormatSpec::Hms24, Some(3661), 7200).unwrap().as_deref(), Some("03:01:01"));
    assert_eq!(time_from_reading(FormatSpec::Hm24, Some(3661), -7200).unwrap().as_deref(), Some("23:01"));
    assert!(matches!(time_from_reading(FormatSpec::Hm24, None, 0), Err(PromptError::IoError(_))));
    assert!(matches!(
        time_from_reading(FormatSpec::Hm24, Some(u64::MAX), 0),
        Err(PromptError::IoError(_))
    ));
}
