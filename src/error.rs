use vstd::prelude::*;
use vstd::string::to_string_from_display_ensures;
use hyper::Error as HyperError;
use digest_auth::Error as DigestError;
use serde_json::Error as JsonError;
use hyper::header::InvalidHeaderValue;

verus! {

#[verifier::external_type_specification]
#[verifier::external_body]
pub struct ExHyperError(HyperError);

#[verifier::external_type_specification]
#[verifier::external_body]
pub struct ExDigestError(DigestError);

#[verifier::external_type_specification]
#[verifier::external_body]
pub struct ExJsonError(JsonError);

#[verifier::external_type_specification]
#[verifier::external_body]
pub struct ExInvalidHeaderValue(InvalidHeaderValue);

/// Why a fetch or a decode failed.
pub enum Error {
    Forbidden,
    Unauthorized,
    NotFound,
    UnknownCode,
    UnexpectedCode,
    MissingHeader,
    Hyper(HyperError),
    Digest(DigestError),
    SerdeJson(JsonError),
    InvalidHeaderValue(InvalidHeaderValue),
}

/// The JSON payload that reports an error with the given text.
pub open spec fn error_json(text: Seq<char>) -> Seq<char> {
    "{\"error\": \""@ + text + "\"}"@
}

/// The fixed text of the variants that carry no cause.
pub open spec fn fixed_text(e: Error) -> Option<Seq<char>> {
    match e {
        Error::Forbidden => Some("Status: Forbidden"@),
        Error::UnknownCode => Some("Caught bad status code"@),
        Error::Unauthorized => Some("Status: Unauthorized"@),
        Error::NotFound => Some("Status: Not found"@),
        Error::UnexpectedCode => Some("Unexpected status code received"@),
        Error::MissingHeader => Some("Missing expected response header"@),
        _ => None,
    }
}

fn wrap(text: &str) -> (r: String)
    ensures
        r@ == error_json(text@),
{
    let mut s = String::from_str("{\"error\": \"");
    s.append(text);
    s.append("\"}");
    s
}

impl Error {
    /// The JSON payload that reports this error: `{"error": "<text>"}`, with
    /// a fixed text for the variants without a cause and the cause's own
    /// message for the others.
    pub fn message(&self) -> (r: String)
        ensures
            fixed_text(*self) matches Some(t) ==> r@ == error_json(t),
            fixed_text(*self) is None ==> exists|t: String| r@ == error_json(t@)
                && match *self {
                    Error::Hyper(e) => to_string_from_display_ensures::<HyperError>(&e, t),
                    Error::Digest(e) => to_string_from_display_ensures::<DigestError>(&e, t),
                    Error::SerdeJson(e) => to_string_from_display_ensures::<JsonError>(&e, t),
                    Error::InvalidHeaderValue(e) => to_string_from_display_ensures::<InvalidHeaderValue>(&e, t),
                    _ => true,
                },
    {
        match self {
            Error::Forbidden => wrap("Status: Forbidden"),
            Error::UnknownCode => wrap("Caught bad status code"),
            Error::Unauthorized => wrap("Status: Unauthorized"),
            Error::NotFound => wrap("Status: Not found"),
            Error::UnexpectedCode => wrap("Unexpected status code received"),
            Error::MissingHeader => wrap("Missing expected response header"),
            Error::Hyper(e) => {
                let t = e.to_string();
                wrap(t.as_str())
            },
            Error::Digest(e) => {
                let t = e.to_string();
                wrap(t.as_str())
            },
            Error::SerdeJson(e) => {
                let t = e.to_string();
                wrap(t.as_str())
            },
            Error::InvalidHeaderValue(e) => {
                let t = e.to_string();
                wrap(t.as_str())
            },
        }
    }
}

impl From<HyperError> for Error {
    fn from(err: HyperError) -> Error {
        Error::Hyper(err)
    }
}

impl vstd::std_specs::convert::FromSpecImpl<HyperError> for Error {
    open spec fn obeys_from_spec() -> bool {
        true
    }

    open spec fn from_spec(err: HyperError) -> Error {
        Error::Hyper(err)
    }
}

impl From<DigestError> for Error {
    fn from(err: DigestError) -> Error {
        Error::Digest(err)
    }
}

impl vstd::std_specs::convert::FromSpecImpl<DigestError> for Error {
    open spec fn obeys_from_spec() -> bool {
        true
    }

    open spec fn from_spec(err: DigestError) -> Error {
        Error::Digest(err)
    }
}

impl From<JsonError> for Error {
    fn from(err: JsonError) -> Error {
        Error::SerdeJson(err)
    }
}

impl vstd::std_specs::convert::FromSpecImpl<JsonError> for Error {
    open spec fn obeys_from_spec() -> bool {
        true
    }

    open spec fn from_spec(err: JsonError) -> Error {
        Error::SerdeJson(err)
    }
}

impl From<InvalidHeaderValue> for Error {
    fn from(err: InvalidHeaderValue) -> Error {
        Error::InvalidHeaderValue(err)
    }
}

impl vstd::std_specs::convert::FromSpecImpl<InvalidHeaderValue> for Error {
    open spec fn obeys_from_spec() -> bool {
        true
    }

    open spec fn from_spec(err: InvalidHeaderValue) -> Error {
        Error::InvalidHeaderValue(err)
    }
}

} // verus!
