use vstd::prelude::*;
use serde_json::Error as JsonError;
use serde_json::Value;
use crate::error::Error;
use crate::handshake::Handshake;

verus! {

#[verifier::external_type_specification]
#[verifier::external_body]
pub struct ExValue(Value);

/// The base of every request.
pub const API_URL: &'static str = "https://cloud.mongodb.com/api/atlas/v1.0";

/// A JSON document, as the library reads it. Numbers keep their text; an
/// object's members keep the order in which the decoder hands them out, with
/// distinct keys.
pub enum Json {
    Null,
    Bool(bool),
    Number(String),
    Text(String),
    Array(Vec<Json>),
    Object(Vec<Member>),
}

/// One member of a JSON object.
pub struct Member {
    pub key: String,
    pub value: Json,
}

/// Whether a byte string is a JSON document that serde_json reads.
pub uninterp spec fn json_parses(bytes: Seq<u8>) -> bool;

/// The document that serde_json reads from a byte string.
pub uninterp spec fn json_of(bytes: Seq<u8>) -> Json;

/// Relies on serde_json::from_slice into a serde_json::Value: reads a JSON
/// document, or fails; both depend on the bytes alone.
#[verifier::external_body]
fn decode_json(bytes: &[u8]) -> (r: Result<Json, JsonError>)
    ensures
        r is Ok == json_parses(bytes@),
        r matches Ok(doc) ==> doc == json_of(bytes@),
{
    match serde_json::from_slice::<Value>(bytes) {
        Ok(v) => Ok(json_from_value(v)),
        Err(e) => Err(e),
    }
}

/// Relies on the variants of serde_json::Value and Number's Display: carries
/// a decoded value over into a `Json`, one variant for one.
#[verifier::external_body]
fn json_from_value(v: Value) -> Json {
    match v {
        Value::Null => Json::Null,
        Value::Bool(b) => Json::Bool(b),
        Value::Number(n) => Json::Number(n.to_string()),
        Value::String(s) => Json::Text(s),
        Value::Array(a) => Json::Array(a.into_iter().map(json_from_value).collect()),
        Value::Object(m) => Json::Object(
            m.into_iter().map(|(key, v)| Member { key, value: json_from_value(v) }).collect(),
        ),
    }
}

/// The value of the first member of an object with the given key.
pub open spec fn member_of(members: Seq<Member>, key: Seq<char>) -> Option<Json>
    decreases members.len(),
{
    if members.len() == 0 {
        None
    } else if members[0].key@ == key {
        Some(members[0].value)
    } else {
        member_of(members.drop_first(), key)
    }
}

/// The member of a document under `key`; none when it is not an object.
pub open spec fn field(doc: Json, key: Seq<char>) -> Option<Json> {
    match doc {
        Json::Object(ms) => member_of(ms@, key),
        _ => None,
    }
}

/// The string `id` of the last element of the `results` array of a listing.
pub open spec fn listing_id(doc: Json) -> Option<Seq<char>> {
    match field(doc, "results"@) {
        Some(Json::Array(items)) => if items@.len() > 0 {
            match field(items@.last(), "id"@) {
                Some(Json::Text(s)) => Some(s@),
                _ => None,
            }
        } else {
            None
        },
        _ => None,
    }
}

fn find_field<'a>(doc: &'a Json, key: &String) -> (r: Option<&'a Json>)
    ensures
        r matches Some(v) ==> field(*doc, key@) == Some(*v),
        r is None ==> field(*doc, key@) is None,
{
    match doc {
        Json::Object(ms) => {
            let mut k: usize = 0;
            assert(ms@.subrange(0, ms@.len() as int) =~= ms@);
            while k < ms.len()
                invariant
                    k <= ms@.len(),
                    field(*doc, key@) == member_of(ms@.subrange(k as int, ms@.len() as int), key@),
                decreases ms@.len() - k,
            {
                assert(ms@.subrange(k as int, ms@.len() as int).drop_first() =~= ms@.subrange(k + 1, ms@.len() as int));
                assert(ms@.subrange(k as int, ms@.len() as int)[0] == ms@[k as int]);
                if ms[k].key == *key {
                    return Some(&ms[k].value);
                }
                k = k + 1;
            }
            None
        },
        _ => None,
    }
}

/// Which invoice a poll cycle reads.
pub enum InvoiceChoice {
    Pending,
    LastClosed,
}

/// On the first day of a month the invoice that was just closed is read,
/// on the other days the pending one.
pub fn invoice_for_day(day: u32) -> (r: InvoiceChoice)
    ensures
        r is LastClosed <==> day == 1,
{
    if day == 1 {
        InvoiceChoice::LastClosed
    } else {
        InvoiceChoice::Pending
    }
}

/// The id of the last entry of the `results` array of an invoice listing.
/// A document that does not parse is a decode error; one without a string
/// `id` in such an entry is `NotFound`.
pub fn last_invoice_id(bytes: &[u8]) -> (r: Result<String, Error>)
    ensures
        !json_parses(bytes@) ==> r matches Err(Error::SerdeJson(_)),
        json_parses(bytes@) ==> match listing_id(json_of(bytes@)) {
            Some(id) => (r matches Ok(s) && s@ == id),
            None => r matches Err(Error::NotFound),
        },
{
    let doc = match decode_json(bytes) {
        Ok(d) => d,
        Err(e) => return Err(Error::SerdeJson(e)),
    };
    let results_key = String::from_str("results");
    let id_key = String::from_str("id");
    let results = match find_field(&doc, &results_key) {
        Some(r) => r,
        None => return Err(Error::NotFound),
    };
    let list = match results {
        Json::Array(l) => l,
        _ => return Err(Error::NotFound),
    };
    if list.len() == 0 {
        return Err(Error::NotFound);
    }
    let last = &list[list.len() - 1];
    match find_field(last, &id_key) {
        Some(Json::Text(t)) => Ok(t.clone()),
        _ => Err(Error::NotFound),
    }
}

/// The credentials and organization of the poller.
pub struct State {
    pub public_key: String,
    pub private_key: String,
    pub org: String,
}

impl State {
    /// The path of the organization's pending invoice.
    pub fn pending_path(&self) -> (r: String)
        ensures
            r@ == "orgs/"@ + self.org@ + "/invoices/pending"@,
    {
        let mut p = String::from_str("orgs/");
        p.append(self.org.as_str());
        p.append("/invoices/pending");
        p
    }

    /// The path of the organization's invoice listing.
    pub fn invoice_list_path(&self) -> (r: String)
        ensures
            r@ == "orgs/"@ + self.org@ + "/invoices?itemsPerPage=2"@,
    {
        let mut p = String::from_str("orgs/");
        p.append(self.org.as_str());
        p.append("/invoices?itemsPerPage=2");
        p
    }

    /// The path of one of the organization's invoices.
    pub fn invoice_path(&self, id: &str) -> (r: String)
        ensures
            r@ == "orgs/"@ + self.org@ + "/invoices/"@ + id@,
    {
        let mut p = String::from_str("orgs/");
        p.append(self.org.as_str());
        p.append("/invoices/");
        p.append(id);
        p
    }

    /// A fetch of `path` under the API's base, with this state's credentials
    /// and the client nonce `cnonce`.
    pub fn handshake(&self, path: &str, cnonce: &str) -> (r: Handshake)
        ensures
            r.cnonce@ == cnonce@,
            r.uri@ == API_URL@ + "/"@ + path@,
            r.path@ == path@,
            r.public_key@ == self.public_key@,
            r.private_key@ == self.private_key@,
            r.stage is Ready,
    {
        Handshake::new(API_URL, path, self.public_key.as_str(), self.private_key.as_str(), cnonce)
    }
}

} // verus!
