use rebotarm_control_rt::pd_targets::{
    parse_args, targets_from_flags, PdArgs, PdArgsError, PdOption, DEFAULT_TIMEOUT_MS,
};

fn args(v: &[&str]) -> Vec<String> {
    v.iter().map(|s| s.to_string()).collect()
}

fn pairs(p: &PdArgs) -> Vec<(String, String)> {
    p.targets.iter().map(|t| (t.label.clone(), t.port.clone())).collect()
}

fn pair(a: &str, b: &str) -> (String, String) {
    (a.to_string(), b.to_string())
}

#[test]
fn strict_reading_of_the_options() {
    let p = parse_args(&args(&["--default-bi", "--timeout-ms", "50"])).ok().expect("args");
    assert_eq!(p.timeout_ms, 50);
    assert_eq!(pairs(&p), vec![pair("left", "/dev/ttyACM0"), pair("right", "/dev/ttyACM1")]);

    let p = parse_args(&args(&[
        "--port", "can0", "--left-port", "/dev/ttyUSB0", "--default-bi", "--port", "can1",
    ]))
    .ok()
    .expect("args");
    assert_eq!(p.timeout_ms, DEFAULT_TIMEOUT_MS);
    assert_eq!(
        pairs(&p),
        vec![
            pair("left", "/dev/ttyUSB0"),
            pair("right", "/dev/ttyACM1"),
            pair("port1", "can0"),
            pair("port2", "can1"),
        ]
    );
}

#[test]
fn strict_reading_errors() {
    assert_eq!(parse_args(&args(&[])).err(), Some(PdArgsError::NoTarget));
    assert_eq!(parse_args(&args(&["--port", "x", "-h"])).err(), Some(PdArgsError::Help));
    assert_eq!(
        parse_args(&args(&["--timeout-ms", "abc", "--help"])).err(),
        Some(PdArgsError::BadTimeout)
    );
    assert_eq!(
        parse_args(&args(&["--port"])).err(),
        Some(PdArgsError::MissingValue(PdOption::Port))
    );
    assert_eq!(
        parse_args(&args(&["--default-bi", "--right-port"])).err(),
        Some(PdArgsError::MissingValue(PdOption::RightPort))
    );
    assert_eq!(
        parse_args(&args(&["--default-bi", "--verbose"])).err(),
        Some(PdArgsError::UnknownArgument(1))
    );
    assert_eq!(parse_args(&args(&["--timeout-ms", "-1"])).err(), Some(PdArgsError::BadTimeout));
}

#[test]
fn reading_by_flags() {
    let p = targets_from_flags(&args(&["--port=can3", "--timeout-ms", "x", "--extra"])).ok().expect("args");
    assert_eq!(p.timeout_ms, DEFAULT_TIMEOUT_MS);
    assert_eq!(pairs(&p), vec![pair("port1", "can3")]);

    let p = targets_from_flags(&args(&["--right-port", "can9", "--default-bi", "--timeout-ms=120"]))
        .ok()
        .expect("args");
    assert_eq!(p.timeout_ms, 120);
    assert_eq!(pairs(&p), vec![pair("left", "/dev/ttyACM0"), pair("right", "can9")]);

    assert_eq!(targets_from_flags(&args(&["--port", "x", "-h"])).err(), Some(PdArgsError::Help));
    assert_eq!(targets_from_flags(&args(&["--left-port", "x"])).err(), Some(PdArgsError::NoTarget));
}
