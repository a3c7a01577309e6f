use see_slug::arguments::{Mode, DEFAULT_PORT};
use see_slug::decimal::decimal_string;

fn args(list: &[&str]) -> Vec<String> {
    list.iter().map(|s| String::from(*s)).collect()
}

#[test]
fn decimal_rendering() {
    assert_eq!(decimal_string(0), "0");
    assert_eq!(decimal_string(7), "7");
    assert_eq!(decimal_string(80), "80");
    assert_eq!(decimal_string(3000000), "3000000");
    assert_eq!(decimal_string(2097152), "2097152");
}

#[test]
fn mode_defaults() {
    match Mode::new(&args(&[])) {
        Mode::Normal(config) => {
            assert_eq!(config.folder, ".");
            assert_eq!(config.port, DEFAULT_PORT);
        },
        _ => panic!("expected the normal mode"),
    }
}

#[test]
fn mode_folder_and_port() {
    match Mode::new(&args(&["--folder", "/videos", "--port", "8080"])) {
        Mode::Normal(config) => {
            assert_eq!(config.folder, "/videos");
            assert_eq!(config.port, 8080);
        },
        _ => panic!("expected the normal mode"),
    }
}

#[test]
fn mode_help_and_version() {
    assert!(matches!(Mode::new(&args(&["-h"])), Mode::Help));
    assert!(matches!(Mode::new(&args(&["--help"])), Mode::Help));
    assert!(matches!(Mode::new(&args(&["-v"])), Mode::Version));
    assert!(matches!(Mode::new(&args(&["--version"])), Mode::Version));
    assert!(matches!(Mode::new(&args(&["--port", "--help"])), Mode::Help));
}

#[test]
fn mode_bad_port() {
    match Mode::new(&args(&["--port", "nope"])) {
        Mode::Error(message) => {
            assert_eq!(message, "Expected a port number but got \"nope\"\n");
        },
        _ => panic!("expected an error"),
    }
    match Mode::new(&args(&["--port", "70000"])) {
        Mode::Error(message) => {
            assert_eq!(message, "Expected a port number but got \"70000\"\n");
        },
        _ => panic!("expected an error"),
    }
}

#[test]
fn mode_port_with_plus_and_zeros() {
    match Mode::new(&args(&["--port", "+0081"])) {
        Mode::Normal(config) => assert_eq!(config.port, 81),
        _ => panic!("expected the normal mode"),
    }
}

#[test]
fn mode_missing_value() {
    match Mode::new(&args(&["--folder"])) {
        Mode::Error(message) => {
            assert_eq!(message, "Expected an argument after \"--folder\"\n");
        },
        _ => panic!("expected an error"),
    }
    match Mode::new(&args(&["--port"])) {
        Mode::Error(message) => {
            assert_eq!(message, "Expected an argument after \"--port\"\n");
        },
        _ => panic!("expected an error"),
    }
}

#[test]
fn mode_unknown_argument() {
    match Mode::new(&args(&["--bogus"])) {
        Mode::Error(message) => {
            assert_eq!(message, "Expected a valid argument but got \"--bogus\"\n");
        },
        _ => panic!("expected an error"),
    }
}

#[test]
fn mode_last_flag_wins() {
    match Mode::new(&args(&["--port", "81", "--port", "82"])) {
        Mode::Normal(config) => assert_eq!(config.port, 82),
        _ => panic!("expected the normal mode"),
    }
}
