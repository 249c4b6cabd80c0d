use vstd::prelude::*;
use vstd::utf8::is_ascii_chars;
use digest_auth::AuthContext;
use digest_auth::Error as DigestError;
use hyper::Error as HyperError;
use crate::error::Error;

verus! {

/// Whether a `WWW-Authenticate` value is a challenge that digest_auth reads.
pub uninterp spec fn challenge_parses(text: Seq<char>) -> bool;

/// The `Authorization` value that digest_auth composes for a GET of `path`
/// in answer to the challenge `challenge`, read afresh (nonce count 1), with
/// credentials `user` and `secret` and client nonce `cnonce`.
pub uninterp spec fn digest_answer(
    challenge: Seq<char>,
    user: Seq<char>,
    secret: Seq<char>,
    path: Seq<char>,
    cnonce: Seq<char>,
) -> Seq<char>;

/// Whether a header value is a Digest credential: it opens with `Digest `.
pub open spec fn is_digest_credential(a: Seq<char>) -> bool {
    a.len() >= 7 && a.subrange(0, 7) == "Digest "@
}

/// Relies on digest_auth::parse (WwwAuthenticateHeader::parse), then
/// WwwAuthenticateHeader::respond with AuthContext::new (a GET without body)
/// and AuthContext::set_custom_cnonce, and AuthorizationHeader's Display.
/// The parser slices by character counts, so the text must be ASCII. Whether
/// the text parses depends on it alone; `"error"` stops in a name and is
/// refused as invalid syntax. A parsed challenge is always answered: its qop
/// list is never empty and holds only `auth` and `auth-int`. The Display of
/// the answer writes `Digest ` first.
#[verifier::external_body]
fn answer_challenge(
    challenge: &str,
    user: &str,
    secret: &str,
    path: &str,
    cnonce: &str,
) -> (r: Result<String, DigestError>)
    requires
        challenge.is_ascii(),
    ensures
        r is Ok == challenge_parses(challenge@),
        r matches Ok(a) ==> a@ == digest_answer(challenge@, user@, secret@, path@, cnonce@),
        r matches Ok(a) ==> is_digest_credential(a@),
        challenge@ == "error"@ ==> r is Err,
{
    let mut prompt = digest_auth::parse(challenge)?;
    let mut context = AuthContext::new(user, secret, path);
    context.set_custom_cnonce(cnonce);
    match prompt.respond(&context) {
        Ok(h) => Ok(h.to_string()),
        Err(e) => Err(e),
    }
}

/// The `Authorization` value that answers the challenge `challenge` for a GET
/// of `path`, with a client nonce chosen by the caller. A challenge that does
/// not parse is a digest error.
pub fn authorization(
    user: &str,
    secret: &str,
    path: &str,
    challenge: &str,
    cnonce: &str,
) -> (r: Result<String, Error>)
    requires
        challenge.is_ascii(),
    ensures
        challenge_parses(challenge@) ==> (r matches Ok(a)
            && a@ == digest_answer(challenge@, user@, secret@, path@, cnonce@)
            && is_digest_credential(a@)),
        !challenge_parses(challenge@) ==> r matches Err(Error::Digest(_)),
{
    match answer_challenge(challenge, user, secret, path, cnonce) {
        Ok(a) => Ok(a),
        Err(e) => Err(Error::Digest(e)),
    }
}

/// The `WWW-Authenticate` header of a reply, as the transport found it.
pub enum ChallengeHeader {
    Missing,
    Unreadable,
    Text(String),
}

/// What the transport reports of one request.
pub enum Event {
    Failed(HyperError),
    Replied { status: u16, challenge: ChallengeHeader },
}

/// What the transport is to do next: send a GET, with an `Authorization`
/// value or without, or stop with the outcome. `Finish(Ok(()))` means the
/// body of the last reply is the document.
pub enum Action {
    Send { uri: String, authorization: Option<String> },
    Finish(Result<(), Error>),
}

/// Where a handshake stands: not started, waiting for the challenge,
/// waiting for the answer to the authenticated request, or done.
pub enum Stage {
    Ready,
    AwaitingChallenge,
    AwaitingAnswer,
    Finished,
}

/// One fetch of `path` under a base URL: an unauthenticated GET that must be
/// answered by a digest challenge, then a GET that carries the answer.
pub struct Handshake {
    pub uri: String,
    pub path: String,
    pub public_key: String,
    pub private_key: String,
    pub cnonce: String,
    pub stage: Stage,
}

/// The outcome that the status of the authenticated reply stands for.
pub open spec fn answer_outcome(status: u16) -> Result<(), Error> {
    if status == 200 {
        Ok(())
    } else if status == 404 {
        Err(Error::NotFound)
    } else if status == 403 {
        Err(Error::Forbidden)
    } else if status == 401 {
        Err(Error::Unauthorized)
    } else {
        Err(Error::UnknownCode)
    }
}

/// The text handed to the challenge parser for a header that is there: its
/// own text when that is ASCII, else `"error"`, which never parses.
pub open spec fn challenge_text(h: ChallengeHeader) -> Seq<char> {
    match h {
        ChallengeHeader::Text(t) => if is_ascii_chars(t@) { t@ } else { "error"@ },
        _ => "error"@,
    }
}

fn outcome_of_answer(status: u16) -> (r: Result<(), Error>)
    ensures
        r == answer_outcome(status),
{
    if status == 200 {
        Ok(())
    } else if status == 404 {
        Err(Error::NotFound)
    } else if status == 403 {
        Err(Error::Forbidden)
    } else if status == 401 {
        Err(Error::Unauthorized)
    } else {
        Err(Error::UnknownCode)
    }
}

/// Whether two handshakes agree on everything but the stage.
pub open spec fn same_request(a: Handshake, b: Handshake) -> bool {
    a.uri == b.uri && a.path == b.path && a.public_key == b.public_key && a.private_key == b.private_key
        && a.cnonce == b.cnonce
}

impl Handshake {
    /// A fetch of `base_url/path` with the given credentials; `cnonce` is
    /// the client nonce of the answer, fresh for each fetch.
    pub fn new(base_url: &str, path: &str, public_key: &str, private_key: &str, cnonce: &str) -> (r: Handshake)
        ensures
            r.cnonce@ == cnonce@,
            r.uri@ == base_url@ + "/"@ + path@,
            r.path@ == path@,
            r.public_key@ == public_key@,
            r.private_key@ == private_key@,
            r.stage is Ready,
    {
        let mut uri = base_url.to_owned();
        uri.append("/");
        uri.append(path);
        Handshake {
            uri,
            path: path.to_owned(),
            public_key: public_key.to_owned(),
            private_key: private_key.to_owned(),
            cnonce: cnonce.to_owned(),
            stage: Stage::Ready,
        }
    }

    /// The first request: a GET without credentials.
    pub fn start(&mut self) -> (r: Action)
        requires
            old(self).stage is Ready,
        ensures
            same_request(*final(self), *old(self)),
            final(self).stage is AwaitingChallenge,
            r matches Action::Send { uri, authorization } && uri@ == old(self).uri@ && authorization is None,
    {
        self.stage = Stage::AwaitingChallenge;
        Action::Send { uri: self.uri.clone(), authorization: None }
    }

    /// Takes what the transport reports of the last request and says what
    /// comes next. The first reply must be a 401 with a digest challenge,
    /// which is answered in a second request; the status of the second reply
    /// decides the outcome.
    pub fn on_event(&mut self, event: Event) -> (r: Action)
        requires
            old(self).stage is AwaitingChallenge || old(self).stage is AwaitingAnswer,
        ensures
            same_request(*final(self), *old(self)),
            r is Finish <==> final(self).stage is Finished,
            r is Send ==> final(self).stage is AwaitingAnswer,
            event matches Event::Failed(e) ==> r == Action::Finish(Err(Error::Hyper(e))),
            old(self).stage is AwaitingChallenge ==> match event {
                Event::Failed(_) => true,
                Event::Replied { status, challenge } => if status != 401 {
                    r == Action::Finish(Err(Error::UnexpectedCode))
                } else if challenge is Missing {
                    r == Action::Finish(Err(Error::MissingHeader))
                } else if !challenge_parses(challenge_text(challenge)) {
                    r matches Action::Finish(Err(Error::Digest(_)))
                } else {
                    (r matches Action::Send { uri, authorization: Some(a) }
                        && uri@ == old(self).uri@
                        && is_digest_credential(a@)
                        && a@ == digest_answer(
                            challenge_text(challenge),
                            old(self).public_key@,
                            old(self).private_key@,
                            old(self).path@,
                            old(self).cnonce@,
                        ))
                },
            },
            old(self).stage is AwaitingAnswer ==> (event matches Event::Replied { status, .. }
                ==> r == Action::Finish(answer_outcome(status))),
    {
        let awaiting_challenge = match self.stage {
            Stage::AwaitingChallenge => true,
            _ => false,
        };
        match event {
            Event::Failed(e) => {
                self.stage = Stage::Finished;
                Action::Finish(Err(Error::Hyper(e)))
            },
            Event::Replied { status, challenge } => {
                if !awaiting_challenge {
                    self.stage = Stage::Finished;
                    return Action::Finish(outcome_of_answer(status));
                }
                if status != 401 {
                    self.stage = Stage::Finished;
                    return Action::Finish(Err(Error::UnexpectedCode));
                }
                let answer = match &challenge {
                    ChallengeHeader::Missing => {
                        self.stage = Stage::Finished;
                        return Action::Finish(Err(Error::MissingHeader));
                    },
                    ChallengeHeader::Text(t) if t.is_ascii() => answer_challenge(
                        t.as_str(),
                        self.public_key.as_str(),
                        self.private_key.as_str(),
                        self.path.as_str(),
                        self.cnonce.as_str(),
                    ),
                    _ => {
                        proof {
                            reveal_strlit("error");
                        }
                        answer_challenge(
                            "error",
                            self.public_key.as_str(),
                            self.private_key.as_str(),
                            self.path.as_str(),
                            self.cnonce.as_str(),
                        )
                    },
                };
                match answer {
                    Ok(a) => {
                        self.stage = Stage::AwaitingAnswer;
                        Action::Send { uri: self.uri.clone(), authorization: Some(a) }
                    },
                    Err(e) => {
                        self.stage = Stage::Finished;
                        Action::Finish(Err(Error::Digest(e)))
                    },
                }
            },
        }
    }
}

} // verus!
