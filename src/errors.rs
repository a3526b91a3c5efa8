//! The errors reported to clients, and the JSON body and HTTP status of each.
use vstd::prelude::*;
use crate::instances::InstanceStatus;
use crate::text::{append_json_string, json_string};

verus! {

/// An error reported to a client.
#[derive(Clone, PartialEq, Eq, Debug)]
pub enum ApiError {
    BadRequest,
    BadName,
    NotFound,
    AlreadyExists,
    VersionNotFound,
    PropertyNotFound(String),
    PropertyReadOnly(String),
    PropertyInvalid(String),
    BadConfig(String),
    BadInstanceStatus(InstanceStatus),
    PortInUse,
    JavaError(String),
    IOError(String),
}

/// The HTTP status of an error: 500 for spawn and I/O failures, 400 for the rest.
pub open spec fn status_of(e: ApiError) -> u16 {
    match e {
        ApiError::JavaError(_) | ApiError::IOError(_) => 500,
        _ => 400,
    }
}

/// The JSON body with a kind, a description and one more named string field.
pub open spec fn body_with(head: Seq<char>, field: Seq<char>, value: Seq<char>) -> Seq<char> {
    head + field + json_string(value) + "}"@
}

/// The status word of an instance in JSON bodies.
pub open spec fn status_word(s: InstanceStatus) -> Seq<char> {
    match s {
        InstanceStatus::Cold => "cold"@,
        InstanceStatus::Loading => "loading"@,
        InstanceStatus::Online => "online"@,
        InstanceStatus::Shutdown => "shutdown"@,
        InstanceStatus::Offline => "offline"@,
    }
}

/// The description of an instance status in error bodies.
pub open spec fn status_desc(s: InstanceStatus) -> Seq<char> {
    match s {
        InstanceStatus::Cold => "O save está desligado"@,
        InstanceStatus::Loading => "O save está ligando"@,
        InstanceStatus::Online => "O save está ligado"@,
        InstanceStatus::Shutdown => "O save está desligando"@,
        InstanceStatus::Offline => "O save está desligado"@,
    }
}

/// The JSON body of an error; `None` for `BadRequest`, which has none. `java` is the
/// interpreter path named in I/O errors.
pub open spec fn error_body(e: ApiError, java: Seq<char>) -> Option<Seq<char>> {
    match e {
        ApiError::BadRequest => None,
        ApiError::BadName => Some(
            "{\"err\":\"BadName\",\"desc\":\"Esse nome não pode ser usado como nome de um mundo\"}"@,
        ),
        ApiError::NotFound => Some("{\"err\":\"NotFound\",\"desc\":\"O save não foi encontrado\"}"@),
        ApiError::AlreadyExists => Some(
            "{\"err\":\"AlreadyExists\",\"desc\":\"O nome já é usado por um save\"}"@,
        ),
        ApiError::VersionNotFound => Some(
            "{\"err\":\"VersionNotFound\",\"desc\":\"A versão não existe, ou não está instalada\"}"@,
        ),
        ApiError::PropertyNotFound(p) => Some(
            body_with(
                "{\"err\":\"PropertyNotFound\",\"desc\":\"Essa propiedade não existe\""@,
                ",\"prop\":"@,
                p@,
            ),
        ),
        ApiError::PropertyReadOnly(p) => Some(
            body_with(
                "{\"err\":\"PropertyReadOnly\",\"desc\":\"Não é possível escrever para esta propiedade\""@,
                ",\"prop\":"@,
                p@,
            ),
        ),
        ApiError::PropertyInvalid(p) => Some(
            body_with(
                "{\"err\":\"PropertyInvalid\",\"desc\":\"O valor usado para essa propiedade é inválido\""@,
                ",\"prop\":"@,
                p@,
            ),
        ),
        ApiError::BadConfig(p) => Some(
            body_with(
                "{\"err\":\"BadConfig\",\"desc\":\"Essa propiedade está configurada com um valor inválido, reconfigure com um valor válido\""@,
                ",\"prop\":"@,
                p@,
            ),
        ),
        ApiError::BadInstanceStatus(s) => Some(
            "{\"err\":\"BadInstanceStatus\",\"desc\":"@ + json_string(status_desc(s))
                + ",\"status\":"@ + json_string(status_word(s)) + "}"@,
        ),
        ApiError::PortInUse => Some(
            "{\"err\":\"PortInUse\",\"desc\":\"A porta já esta sendo usada por outro save\"}"@,
        ),
        ApiError::JavaError(d) => Some(
            body_with(
                "{\"err\":\"JavaError\",\"desc\":\"Ocorreu um erro ao executar o Java\""@,
                ",\"ioerr\":"@,
                d@,
            ),
        ),
        ApiError::IOError(d) => Some(
            "{\"err\":\"IOError\",\"desc\":\"Ocorreu um erro ao operar os arquivos\",\"ioerr\":"@
                + json_string(d@) + ",\"java\":"@ + json_string(java) + "}"@,
        ),
    }
}

fn body_with_field(head: &str, field: &str, value: &String) -> (r: String)
    ensures
        r@ == body_with(head@, field@, value@),
{
    let mut out = String::from_str(head);
    out.append(field);
    append_json_string(&mut out, value.as_str());
    out.append("}");
    out
}

impl ApiError {
    /// The HTTP status of the error.
    pub fn status_code(&self) -> (r: u16)
        ensures
            r == status_of(*self),
    {
        match self {
            ApiError::JavaError(_) | ApiError::IOError(_) => 500,
            _ => 400,
        }
    }

    /// The JSON body of the error, `None` where it has none.
    pub fn body(&self, java: &str) -> (r: Option<String>)
        ensures
            r matches Some(b) ==> error_body(*self, java@) == Some(b@),
            r is None ==> error_body(*self, java@) is None,
    {
        match self {
            ApiError::BadRequest => None,
            ApiError::BadName => Some(
                String::from_str(
                    "{\"err\":\"BadName\",\"desc\":\"Esse nome não pode ser usado como nome de um mundo\"}",
                ),
            ),
            ApiError::NotFound => Some(
                String::from_str("{\"err\":\"NotFound\",\"desc\":\"O save não foi encontrado\"}"),
            ),
            ApiError::AlreadyExists => Some(
                String::from_str("{\"err\":\"AlreadyExists\",\"desc\":\"O nome já é usado por um save\"}"),
            ),
            ApiError::VersionNotFound => Some(
                String::from_str(
                    "{\"err\":\"VersionNotFound\",\"desc\":\"A versão não existe, ou não está instalada\"}",
                ),
            ),
            ApiError::PropertyNotFound(p) => Some(
                body_with_field(
                    "{\"err\":\"PropertyNotFound\",\"desc\":\"Essa propiedade não existe\"",
                    ",\"prop\":",
                    p,
                ),
            ),
            ApiError::PropertyReadOnly(p) => Some(
                body_with_field(
                    "{\"err\":\"PropertyReadOnly\",\"desc\":\"Não é possível escrever para esta propiedade\"",
                    ",\"prop\":",
                    p,
                ),
            ),
            ApiError::PropertyInvalid(p) => Some(
                body_with_field(
                    "{\"err\":\"PropertyInvalid\",\"desc\":\"O valor usado para essa propiedade é inválido\"",
                    ",\"prop\":",
                    p,
                ),
            ),
            ApiError::BadConfig(p) => Some(
                body_with_field(
                    "{\"err\":\"BadConfig\",\"desc\":\"Essa propiedade está configurada com um valor inválido, reconfigure com um valor válido\"",
                    ",\"prop\":",
                    p,
                ),
            ),
            ApiError::BadInstanceStatus(s) => {
                let mut out = String::from_str("{\"err\":\"BadInstanceStatus\",\"desc\":");
                append_json_string(&mut out, s.desc());
                out.append(",\"status\":");
                append_json_string(&mut out, s.word());
                out.append("}");
                Some(out)
            },
            ApiError::PortInUse => Some(
                String::from_str("{\"err\":\"PortInUse\",\"desc\":\"A porta já esta sendo usada por outro save\"}"),
            ),
            ApiError::JavaError(d) => Some(
                body_with_field(
                    "{\"err\":\"JavaError\",\"desc\":\"Ocorreu um erro ao executar o Java\"",
                    ",\"ioerr\":",
                    d,
                ),
            ),
            ApiError::IOError(d) => {
                let mut out = String::from_str(
                    "{\"err\":\"IOError\",\"desc\":\"Ocorreu um erro ao operar os arquivos\",\"ioerr\":",
                );
                append_json_string(&mut out, d.as_str());
                out.append(",\"java\":");
                append_json_string(&mut out, java);
                out.append("}");
                Some(out)
            },
        }
    }
}

} // verus!
