use mc_manager::errors::ApiError;
use mc_manager::naming::{is_safe, parse_name};

fn uri_encode(s: &str) -> String {
    let mut out = String::new();
    for c in s.chars() {
        if c.is_ascii_alphanumeric() || "-_.!~*'()".contains(c) {
            out.push(c);
        } else {
            out.push_str(&format!("%{:02X}", c as u32));
        }
    }
    out
}

#[test]
fn safe_names_are_accepted() {
    for n in ["w1", "My World", "a.b", "COM0", "CONSOLE", "x-y_z(1)"] {
        assert!(is_safe(n), "{}", n);
    }
}

#[test]
fn unsafe_names_are_refused() {
    for n in ["", "CON", "con", "a/b", "a\\b", "..", ".", "ok ", " ok", "ok.", "a:b", "a*b", "a?b", "a\"b", "a<b", "a>b", "tab\tname", "del\u{7f}", "ñame", "com1", "LPT9", "nul", "Aux", "prn"] {
        assert!(!is_safe(n), "{:?}", n);
    }
}

#[test]
fn parse_name_plain() {
    assert_eq!(parse_name("w1".to_string()), Ok("w1".to_string()));
    assert_eq!(parse_name("CON".to_string()), Err(ApiError::BadName));
}

#[test]
fn parse_name_decodes_percent_sequences() {
    assert_eq!(parse_name("My%20World".to_string()), Ok("My World".to_string()));
    assert_eq!(parse_name("w%31".to_string()), Ok("w1".to_string()));
    assert_eq!(parse_name("w%6a".to_string()), Ok("wj".to_string()));
}

#[test]
fn parse_name_rejects_bad_encodings() {
    assert_eq!(parse_name("%E2%82%AC".to_string()), Err(ApiError::BadRequest));
    assert_eq!(parse_name("a%4".to_string()), Err(ApiError::BadRequest));
    assert_eq!(parse_name("a%zz".to_string()), Err(ApiError::BadRequest));
    assert_eq!(parse_name("é%20".to_string()), Err(ApiError::BadRequest));
}

#[test]
fn parse_name_checks_decoded_name() {
    assert_eq!(parse_name("a%2Fb".to_string()), Err(ApiError::BadName));
    assert_eq!(parse_name("%43ON".to_string()), Err(ApiError::BadName));
}

#[test]
fn encoded_safe_names_decode_to_themselves() {
    for n in ["w1", "My World", "a.b", "50% off", "x+y=z", "COM0", "a&b#c"] {
        assert!(is_safe(n));
        let decoded = parse_name(uri_encode(n)).unwrap();
        assert_eq!(decoded, n);
        assert!(is_safe(&decoded));
    }
}
