use jserve::cli::{parse_args, parse_port, ArgError, Command};

fn args(list: &[&str]) -> Vec<String> {
    list.iter().map(|a| a.to_string()).collect()
}

#[test]
fn file_and_default_port() {
    assert_eq!(
        parse_args(&args(&["jserve", "-f", "db.json"])),
        Ok(Command::Serve { file: "db.json".to_string(), port: 3000 })
    );
}

#[test]
fn file_and_port() {
    assert_eq!(
        parse_args(&args(&["jserve", "-p", "8080", "-f", "db.json"])),
        Ok(Command::Serve { file: "db.json".to_string(), port: 8080 })
    );
}

#[test]
fn help_and_version_win_anywhere() {
    assert_eq!(parse_args(&args(&["jserve", "-f", "db.json", "--help"])), Ok(Command::Help));
    assert_eq!(parse_args(&args(&["jserve", "-x", "-v"])), Ok(Command::Version));
    assert_eq!(parse_args(&args(&["jserve", "--version", "-h"])), Ok(Command::Version));
}

#[test]
fn argument_errors() {
    assert_eq!(parse_args(&args(&["jserve"])), Err(ArgError::MissingFile));
    assert_eq!(parse_args(&args(&["jserve", "-f"])), Err(ArgError::MissingFileValue));
    assert_eq!(parse_args(&args(&["jserve", "-f", "a", "-p"])), Err(ArgError::MissingPortValue));
    assert_eq!(
        parse_args(&args(&["jserve", "-f", "a", "-p", "70000"])),
        Err(ArgError::InvalidPort("70000".to_string()))
    );
    assert_eq!(
        parse_args(&args(&["jserve", "--file", "a"])),
        Err(ArgError::UnknownArgument("--file".to_string()))
    );
}

#[test]
fn port_numbers() {
    assert_eq!(parse_port("0"), Some(0));
    assert_eq!(parse_port("+80"), Some(80));
    assert_eq!(parse_port("65535"), Some(65535));
    assert_eq!(parse_port("65536"), None);
    assert_eq!(parse_port(""), None);
    assert_eq!(parse_port("+"), None);
    assert_eq!(parse_port("-1"), None);
    assert_eq!(parse_port("8o"), None);
    assert_eq!(parse_port("0003000"), Some(3000));
    for s in ["1", "+42", "65535", "65536", "99999999999", "x", "", "+", "12a"] {
        assert_eq!(parse_port(s), s.parse::<u16>().ok(), "{}", s);
    }
}
