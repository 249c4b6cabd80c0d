use atlas_billing::error::Error;
use atlas_billing::handshake::{authorization, Action, ChallengeHeader, Event, Handshake, Stage};

const CHALLENGE: &str = "Digest realm=\"x\", nonce=\"n1\", qop=\"auth\", algorithm=MD5";

fn started() -> Handshake {
    let mut h = Handshake::new("https://example.org/api", "orgs/o1/invoices/pending", "user", "secret", "c1");
    match h.start() {
        Action::Send { uri, authorization } => {
            assert_eq!(uri, "https://example.org/api/orgs/o1/invoices/pending");
            assert!(authorization.is_none());
        }
        Action::Finish(_) => panic!("no request"),
    }
    h
}

fn reply(status: u16, challenge: ChallengeHeader) -> Event {
    Event::Replied { status, challenge }
}

fn challenged() -> Handshake {
    let mut h = started();
    match h.on_event(reply(401, ChallengeHeader::Text(CHALLENGE.to_string()))) {
        Action::Send { uri, authorization } => {
            assert_eq!(uri, "https://example.org/api/orgs/o1/invoices/pending");
            let a = authorization.expect("authorization");
            assert!(a.starts_with("Digest username=\"user\", realm=\"x\", nonce=\"n1\""));
            assert!(a.contains("uri=\"orgs/o1/invoices/pending\""));
            assert!(a.contains("cnonce=\"c1\""));
            assert!(a.contains("response=\"e7f03c179c735c1f6d9775826d76b259\""));
        }
        Action::Finish(_) => panic!("challenge not answered"),
    }
    assert!(matches!(h.stage, Stage::AwaitingAnswer));
    h
}

#[test]
fn first_reply_ok_is_unexpected() {
    let mut h = started();
    let a = h.on_event(reply(200, ChallengeHeader::Missing));
    assert!(matches!(a, Action::Finish(Err(Error::UnexpectedCode))));
    assert!(matches!(h.stage, Stage::Finished));
}

#[test]
fn missing_challenge_header() {
    let mut h = started();
    let a = h.on_event(reply(401, ChallengeHeader::Missing));
    assert!(matches!(a, Action::Finish(Err(Error::MissingHeader))));
}

#[test]
fn malformed_challenge_is_digest_error() {
    let mut h = started();
    let a = h.on_event(reply(401, ChallengeHeader::Text("Digest nonce=\"n1\"".to_string())));
    assert!(matches!(a, Action::Finish(Err(Error::Digest(_)))));
    let mut h = started();
    let a = h.on_event(reply(401, ChallengeHeader::Unreadable));
    assert!(matches!(a, Action::Finish(Err(Error::Digest(_)))));
}

#[test]
fn non_ascii_challenge_is_digest_error() {
    let mut h = started();
    let a = h.on_event(reply(401, ChallengeHeader::Text("x\u{e9}=1".to_string())));
    assert!(matches!(a, Action::Finish(Err(Error::Digest(_)))));
    assert!(matches!(h.stage, Stage::Finished));
}

#[test]
fn second_reply_forbidden() {
    let mut h = challenged();
    let a = h.on_event(reply(403, ChallengeHeader::Missing));
    assert!(matches!(a, Action::Finish(Err(Error::Forbidden))));
}

#[test]
fn second_reply_codes() {
    let mut h = challenged();
    assert!(matches!(h.on_event(reply(200, ChallengeHeader::Missing)), Action::Finish(Ok(()))));
    let mut h = challenged();
    assert!(matches!(h.on_event(reply(404, ChallengeHeader::Missing)), Action::Finish(Err(Error::NotFound))));
    let mut h = challenged();
    assert!(matches!(h.on_event(reply(401, ChallengeHeader::Missing)), Action::Finish(Err(Error::Unauthorized))));
    let mut h = challenged();
    assert!(matches!(h.on_event(reply(500, ChallengeHeader::Missing)), Action::Finish(Err(Error::UnknownCode))));
}

#[test]
fn digest_response_for_fixed_challenge() {
    let a = authorization("user", "secret", "orgs/o1/invoices/pending", CHALLENGE, "c1")
        .unwrap_or_else(|_| panic!("challenge refused"));
    assert!(a.contains("response=\"e7f03c179c735c1f6d9775826d76b259\""));
    assert!(a.contains("nc=00000001"));
    assert!(a.contains("cnonce=\"c1\""));
}

#[test]
fn digest_response_rfc_vector() {
    let challenge = "Digest realm=\"http-auth@example.org\", qop=\"auth, auth-int\", algorithm=MD5, \
                     nonce=\"7ypf/xlj9XXwfDPEoM4URrv/xwf94BcCAzFZH4GiTo0v\", \
                     opaque=\"FQhe/qaU925kfnzjCev0ciny7QMkPqMAFRtzCUYo5tdS\"";
    let challenge = challenge.replace("qop=\"auth, auth-int\"", "qop=\"auth\"");
    let a = authorization(
        "Mufasa",
        "Circle of Life",
        "/dir/index.html",
        &challenge,
        "f2/wE4q74E6zIJEtWaHKaf5wv/H5QzzpXusqGemxURZJ",
    )
    .unwrap_or_else(|_| panic!("challenge refused"));
    assert!(a.contains("response=\"8ca523f5e9506fed4657c9700eebdbec\""));
}

#[test]
fn digest_refuses_malformed_challenge() {
    assert!(matches!(authorization("u", "p", "/", "Digest nonce=\"n\"", "c"), Err(Error::Digest(_))));
}
