use mc_manager::config::{parse_ip, parse_port};
use mc_manager::errors::ApiError;
use mc_manager::instances::InstanceStatus;
use mc_manager::text::{append_comma_separated, append_i64, append_json_string, append_u64, trim_chars};
use mc_manager::versions::{download_link, version_list};

#[test]
fn json_string_escapes() {
    let mut out = String::new();
    append_json_string(&mut out, "a\"b\\c\n\r\t\u{8}\u{c}\u{1}\u{7f}é");
    assert_eq!(out, "\"a\\\"b\\\\c\\n\\r\\t\\b\\f\\u0001\\u007Fé\"");
}

#[test]
fn comma_separated_skips_empty_items() {
    let mut out = String::from("[");
    append_comma_separated(&vec!["a".to_string(), String::new(), "b".to_string(), String::new()], &mut out);
    assert_eq!(out, "[a,b");
    let mut none = String::new();
    append_comma_separated(&vec![String::new()], &mut none);
    assert_eq!(none, "");
}

#[test]
fn decimal_numbers() {
    let mut out = String::new();
    append_u64(&mut out, 0);
    out.push(' ');
    append_u64(&mut out, u64::MAX);
    out.push(' ');
    append_i64(&mut out, -42);
    out.push(' ');
    append_i64(&mut out, i64::MAX);
    assert_eq!(out, "0 18446744073709551615 -42 9223372036854775807");
}

#[test]
fn trim_unicode_whitespace() {
    let v: Vec<char> = " \t\u{3000}ab c\u{a0}\r\n".chars().collect();
    assert_eq!(trim_chars(&v), vec!['a', 'b', ' ', 'c']);
    let blank: Vec<char> = "  ".chars().collect();
    assert_eq!(trim_chars(&blank), Vec::<char>::new());
}

#[test]
fn ports() {
    assert_eq!(parse_port("1234"), Some(1234));
    assert_eq!(parse_port("+80"), Some(80));
    assert_eq!(parse_port("65535"), Some(65535));
    assert_eq!(parse_port("0065535"), Some(65535));
    for bad in ["", "+", "65536", "-1", "12a", " 1", "99999999999999999999"] {
        assert_eq!(parse_port(bad), None, "{:?}", bad);
    }
}

#[test]
fn ip_addresses() {
    assert_eq!(parse_ip(""), Some([0, 0, 0, 0]));
    assert_eq!(parse_ip("192.168.0.1"), Some([192, 168, 0, 1]));
    assert_eq!(parse_ip("127.0.0.+1"), Some([127, 0, 0, 1]));
    for bad in ["1.2.3", "1.2.3.4.5", "256.1.1.1", "a.b.c.d", "1..2.3", "1.2.3."] {
        assert_eq!(parse_ip(bad), None, "{:?}", bad);
    }
}

#[test]
fn error_bodies_and_statuses() {
    let java = "/usr/bin/java";
    let cases = vec![
        (ApiError::BadName, "{\"err\":\"BadName\",\"desc\":\"Esse nome não pode ser usado como nome de um mundo\"}", 400),
        (ApiError::NotFound, "{\"err\":\"NotFound\",\"desc\":\"O save não foi encontrado\"}", 400),
        (ApiError::AlreadyExists, "{\"err\":\"AlreadyExists\",\"desc\":\"O nome já é usado por um save\"}", 400),
        (ApiError::VersionNotFound, "{\"err\":\"VersionNotFound\",\"desc\":\"A versão não existe, ou não está instalada\"}", 400),
        (
            ApiError::PropertyNotFound("x".to_string()),
            "{\"err\":\"PropertyNotFound\",\"desc\":\"Essa propiedade não existe\",\"prop\":\"x\"}",
            400,
        ),
        (
            ApiError::PropertyReadOnly("x".to_string()),
            "{\"err\":\"PropertyReadOnly\",\"desc\":\"Não é possível escrever para esta propiedade\",\"prop\":\"x\"}",
            400,
        ),
        (
            ApiError::PropertyInvalid("x".to_string()),
            "{\"err\":\"PropertyInvalid\",\"desc\":\"O valor usado para essa propiedade é inválido\",\"prop\":\"x\"}",
            400,
        ),
        (
            ApiError::BadConfig("server-port".to_string()),
            "{\"err\":\"BadConfig\",\"desc\":\"Essa propiedade está configurada com um valor inválido, reconfigure com um valor válido\",\"prop\":\"server-port\"}",
            400,
        ),
        (
            ApiError::BadInstanceStatus(InstanceStatus::Loading),
            "{\"err\":\"BadInstanceStatus\",\"desc\":\"O save está ligando\",\"status\":\"loading\"}",
            400,
        ),
        (ApiError::PortInUse, "{\"err\":\"PortInUse\",\"desc\":\"A porta já esta sendo usada por outro save\"}", 400),
        (
            ApiError::JavaError("no java".to_string()),
            "{\"err\":\"JavaError\",\"desc\":\"Ocorreu um erro ao executar o Java\",\"ioerr\":\"no java\"}",
            500,
        ),
        (
            ApiError::IOError("denied".to_string()),
            "{\"err\":\"IOError\",\"desc\":\"Ocorreu um erro ao operar os arquivos\",\"ioerr\":\"denied\",\"java\":\"/usr/bin/java\"}",
            500,
        ),
    ];
    for (e, body, status) in cases {
        assert_eq!(e.body(java), Some(body.to_string()));
        assert_eq!(e.status_code(), status);
    }
    assert_eq!(ApiError::BadRequest.body(java), None);
    assert_eq!(ApiError::BadRequest.status_code(), 400);
    assert_eq!(InstanceStatus::Offline.to_error(), ApiError::BadInstanceStatus(InstanceStatus::Offline));
}

#[test]
fn version_list_from_catalogue_page() {
    let page = "<ul><li data-version=\"1.20.1\">a</li><li data-version=\"snapshot\">b</li>\
                <li data-version=\"1.19\">c</li><li data-version=\"1.18</li>";
    let existing = vec!["1.19".to_string(), "custom".to_string(), "1.19".to_string()];
    assert_eq!(version_list(page, existing), "[\"1.20.1\",\"1.19\",\"custom\",\"1.19\"]");
    assert_eq!(version_list("no entries", vec![]), "[]");
    assert_eq!(version_list("", vec!["x".to_string()]), "[\"x\"]");
}

#[test]
fn download_link_from_version_page() {
    let page = "<a href=\"/other\">Other</a> <a class=\"btn\" href=\"https://example.org/server.jar\" download>Download Server Jar</a>\
                <a href=\"https://example.org/late.jar\">Download Server Jar</a>";
    assert_eq!(download_link(page), Some("https://example.org/server.jar".to_string()));
    assert_eq!(download_link("<a >Download Server Jar</a>"), None);
    assert_eq!(download_link("<p>nothing</p>"), None);
}
