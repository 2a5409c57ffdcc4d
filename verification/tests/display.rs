use pipe_dream::error::Error;
use pipe_dream::theme::{Style, Theme};
use pipe_dream::value::Value;

#[test]
fn nothing_is_distinguished_from_an_empty_string() {
    assert!(Value::Nothing.is_nothing());
    assert!(!Value::Scalar(String::new()).is_nothing());
    assert!(!Value::List(vec![]).is_nothing());
}

#[test]
fn scalars_and_errors_have_text() {
    let v = Value::Scalar("3.14".to_string());
    assert_eq!(v.text(), Some(&"3.14".to_string()));
    let e = Value::Error("broken".to_string());
    assert_eq!(e.text(), Some(&"broken".to_string()));
}

#[test]
fn structured_values_have_no_text() {
    assert_eq!(Value::Nothing.text(), None);
    assert_eq!(Value::Record(vec![]).text(), None);
    assert_eq!(Value::List(vec![]).text(), None);
}

#[test]
fn parse_error_message() {
    let e = Error::Parse("unexpected token".to_string());
    assert_eq!(e.message(), "failed to parse command: unexpected token");
}

#[test]
fn shell_error_message() {
    let e = Error::Shell("division by zero".to_string());
    assert_eq!(e.message(), "failed to evaluate command: division by zero");
}

#[test]
fn io_error_message() {
    let e = Error::Io("permission denied".to_string());
    assert_eq!(e.message(), "I/O error: permission denied");
}

#[test]
fn loading_std_error_message() {
    let e = Error::LoadingStd("missing module".to_string());
    assert_eq!(e.message(), "couldn't load std: missing module");
}

#[test]
fn invalid_env_var_message() {
    assert_eq!(Error::InvalidEnvVar.message(), "environment variable is not valid UTF-8");
}

#[test]
fn the_default_style_is_default() {
    assert_eq!(Style::default(), Style::Default);
    let _ = Theme::default();
}
