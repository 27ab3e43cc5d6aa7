use cargo_core::command_prelude::{
    check_single_package_specs, check_unstable_flags, get_profile_name, parse_message_format,
    parse_timings, value_of_u32, CliError, MessageFormat, ProfileChecking, TimingOutput,
};

fn strings(v: &[&str]) -> Vec<String> {
    v.iter().map(|s| s.to_string()).collect()
}

#[test]
fn message_formats() {
    assert_eq!(parse_message_format(&vec![]).unwrap(), None);
    assert_eq!(parse_message_format(&strings(&["short"])).unwrap(), Some(MessageFormat::Short));
    assert_eq!(
        parse_message_format(&strings(&["JSON-diagnostic-short,json-render-diagnostics"])).unwrap(),
        Some(MessageFormat::Json { short: true, ansi: false, render_diagnostics: true })
    );
    assert_eq!(
        parse_message_format(&strings(&["json", "json-diagnostic-rendered-ansi"])).unwrap(),
        Some(MessageFormat::Json { short: false, ansi: true, render_diagnostics: false })
    );
    assert!(matches!(parse_message_format(&strings(&["human,json"])), Err(CliError::TwoMessageFormats)));
    assert!(matches!(
        parse_message_format(&strings(&["short", "json-render-diagnostics"])),
        Err(CliError::TwoMessageFormats)
    ));
    match parse_message_format(&strings(&["xml"])) {
        Err(CliError::InvalidMessageFormat(s)) => assert_eq!(s, "xml"),
        other => panic!("unexpected {:?}", other),
    }
}

#[test]
fn profile_names() {
    let get = |p: Option<&str>, release: bool, debug: bool, c: ProfileChecking| {
        get_profile_name(p, release, release, debug, "dev", c)
    };
    assert_eq!(get(None, false, false, ProfileChecking::Custom).unwrap(), ("dev".to_string(), false));
    assert_eq!(get(None, true, false, ProfileChecking::Custom).unwrap(), ("release".to_string(), false));
    assert_eq!(get(Some("release"), true, false, ProfileChecking::Custom).unwrap(), ("release".to_string(), false));
    assert_eq!(get(Some("fast"), false, false, ProfileChecking::Custom).unwrap(), ("fast".to_string(), false));
    assert_eq!(get(Some("test"), true, false, ProfileChecking::LegacyTestOnly).unwrap(), ("test".to_string(), true));
    assert_eq!(get(Some("check"), false, false, ProfileChecking::LegacyRustc).unwrap(), ("check".to_string(), false));
    match get(Some("fast"), true, false, ProfileChecking::Custom) {
        Err(CliError::ProfileConflict { flag, equiv, specified }) => {
            assert_eq!((flag.as_str(), equiv.as_str(), specified.as_str()), ("release", "release", "fast"));
        }
        other => panic!("unexpected {:?}", other),
    }
    match get(Some("fast"), false, true, ProfileChecking::Custom) {
        Err(CliError::ProfileConflict { flag, equiv, .. }) => assert_eq!((flag.as_str(), equiv.as_str()), ("debug", "dev")),
        other => panic!("unexpected {:?}", other),
    }
    assert!(matches!(get(Some("doc"), false, false, ProfileChecking::Custom), Err(CliError::DocProfileReserved)));
}

#[test]
fn timings() {
    assert_eq!(parse_timings(None, false).unwrap(), vec![]);
    assert_eq!(parse_timings(Some(&vec![]), false).unwrap(), vec![TimingOutput::Html]);
    assert_eq!(parse_timings(Some(&strings(&["html,JSON"])), true).unwrap(), vec![TimingOutput::Html, TimingOutput::Json]);
    match parse_timings(Some(&strings(&["json"])), false) {
        Err(CliError::Unstable { flag, issue }) => {
            assert_eq!(flag, "--timings=json");
            assert_eq!(issue, 7405);
        }
        other => panic!("unexpected {:?}", other),
    }
    match parse_timings(Some(&strings(&["pdf"])), true) {
        Err(CliError::InvalidTimings(s)) => assert_eq!(s, "pdf"),
        other => panic!("unexpected {:?}", other),
    }
}

#[test]
fn unstable_flags_and_numbers() {
    assert!(check_unstable_flags(true, true, true, true).is_ok());
    assert!(check_unstable_flags(false, false, false, false).is_ok());
    match check_unstable_flags(false, true, true, false) {
        Err(CliError::Unstable { flag, issue }) => assert_eq!((flag.as_str(), issue), ("--build-plan", 5579)),
        other => panic!("unexpected {:?}", other),
    }
    assert_eq!(value_of_u32(None).unwrap(), None);
    assert_eq!(value_of_u32(Some("12")).unwrap(), Some(12));
    match value_of_u32(Some("x")) {
        Err(CliError::InvalidNumber(s)) => assert_eq!(s, "x"),
        other => panic!("unexpected {:?}", other),
    }
    assert!(check_single_package_specs(&strings(&["foo", "bar:1.0"])).is_ok());
    assert!(matches!(check_single_package_specs(&strings(&["foo*"])), Err(CliError::GlobPackages)));
}

#[test]
fn numbers_read_as_the_standard_library_reads_them() {
    for text in ["+7", "007", "4294967295", "4294967296", "", "+", "-1", "12a", "99999999999999999999"] {
        let ours = cargo_core::command_prelude::value_of_u32(Some(text)).ok().flatten();
        assert_eq!(ours, text.parse::<u32>().ok(), "{}", text);
    }
}
