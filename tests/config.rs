use aidb::config::{Config, ConfigError};

#[test]
fn reads_keys_and_values() {
    let c = Config::with_text("# comment\nname = alice\nport=8080\n\nempty =\n".to_string()).unwrap();
    assert_eq!(c.get_raw("name"), Some(&b"alice"[..]));
    assert_eq!(c.get_str("port").unwrap(), Some("8080".to_string()));
    assert_eq!(c.get::<u64>("port").unwrap(), Some(8080));
    assert_eq!(c.get_str("empty").unwrap(), Some(String::new()));
    assert_eq!(c.get_str("missing").unwrap(), None);
    assert_eq!(c.get::<u64>("missing").unwrap(), None);
}

#[test]
fn value_ends_at_blank_or_comment() {
    let c = Config::with_data(b"a = one#c\nb = two\n".to_vec()).unwrap();
    assert_eq!(c.get_str("a").unwrap(), Some("one".to_string()));
    assert_eq!(c.get_str("b").unwrap(), Some("two".to_string()));
    let d = Config::with_data(b"a = one two=2".to_vec()).unwrap();
    assert_eq!(d.get_str("a").unwrap(), Some("one".to_string()));
    assert_eq!(d.get_str("two").unwrap(), Some("2".to_string()));
    assert_eq!(Config::with_data(b"b = two three".to_vec()).err(), Some(ConfigError::NoValueAtEnd(1)));
}

#[test]
fn last_value_runs_to_end() {
    let c = Config::with_text("k=v".to_string()).unwrap();
    assert_eq!(c.get_str("k").unwrap(), Some("v".to_string()));
    let d = Config::with_text("k=".to_string()).unwrap();
    assert_eq!(d.get_str("k").unwrap(), Some(String::new()));
}

#[test]
fn first_of_repeated_keys_wins() {
    let c = Config::with_text("k=1\nk=2\n".to_string()).unwrap();
    assert_eq!(c.get::<u32>("k").unwrap(), Some(1));
}

#[test]
fn escapes_and_continuation() {
    let c = Config::with_text("a=x\\ty\\\\z\nb=one\\\n    two\n".to_string()).unwrap();
    assert_eq!(c.get_str("a").unwrap(), Some("x\ty\\z".to_string()));
    assert_eq!(c.get_str("b").unwrap(), Some("onetwo".to_string()));
    let d = Config::with_text("a=bad\\q\n".to_string()).unwrap();
    assert_eq!(d.get_str("a"), Err(ConfigError::BadEscape(b'q')));
}

#[test]
fn escape_table() {
    assert_eq!(Config::escape(b't'), Ok(b'\t'));
    assert_eq!(Config::escape(b'r'), Ok(b'\r'));
    assert_eq!(Config::escape(b'n'), Ok(b'\n'));
    assert_eq!(Config::escape(b'\\'), Ok(b'\\'));
    assert_eq!(Config::escape(b'x'), Err(ConfigError::BadEscape(b'x')));
}

#[test]
fn decode_plain_and_invalid_utf8() {
    assert_eq!(Config::decode(b"plain").unwrap(), "plain");
    assert_eq!(Config::decode(&[0xffu8, 0xfe]), Err(ConfigError::NotUtf8));
    assert_eq!(Config::decode(b"a\\nb\nrest").unwrap(), "a\nb");
}

#[test]
fn syntax_errors() {
    assert_eq!(Config::with_text("=x".to_string()).err(), Some(ConfigError::StartsWithEqual(1)));
    assert_eq!(Config::with_text("a=1\nkey\n".to_string()).err(), Some(ConfigError::NoValueInLine(3)));
    assert_eq!(Config::with_text("key x".to_string()).err(), Some(ConfigError::NoEqual(1, 4)));
    assert_eq!(Config::with_text("key".to_string()).err(), Some(ConfigError::NoValueAtEnd(1)));
    assert_eq!(Config::with_text("key  ".to_string()).err(), Some(ConfigError::NoValueAtEnd(1)));
}

#[test]
fn value_that_does_not_parse() {
    let c = Config::with_text("n=abc".to_string()).unwrap();
    assert_eq!(c.get::<u64>("n").err(), Some(ConfigError::BadValue));
}
