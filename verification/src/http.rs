//! HTTP, as far as this client decides about it.
use vstd::prelude::*;
use vstd::string::*;

use crate::failure;
use crate::failure::Failure;
use crate::json::{Json, JsonView};
use crate::text;

verus! {

/// How a request is made.
#[derive(Debug, Clone, Copy, PartialEq, Eq, Structural)]
pub enum Method {
    Get,
    Post,
}

/// A request to the gateway: what is asked, under which path, with which query
/// and which body.
#[derive(Debug)]
pub struct HttpCall {
    pub method: Method,
    pub path: String,
    pub query: Vec<(String, String)>,
    pub body: Option<Json>,
}

/// A request, mathematically.
pub struct HttpCallView {
    pub method: Method,
    pub path: Seq<char>,
    pub query: Seq<(Seq<char>, Seq<char>)>,
    pub body: Option<JsonView>,
}

/// The names and values of a query.
pub open spec fn query_view(query: Seq<(String, String)>) -> Seq<(Seq<char>, Seq<char>)> {
    query.map_values(|pair: (String, String)| (pair.0@, pair.1@))
}

impl View for HttpCall {
    type V = HttpCallView;

    open spec fn view(&self) -> HttpCallView {
        HttpCallView {
            method: self.method,
            path: self.path@,
            query: query_view(self.query@),
            body: match self.body {
                Some(body) => Some(body@),
                None => None,
            },
        }
    }
}

/// A `POST` of a body.
pub open spec fn post_of(path: Seq<char>, body: JsonView) -> HttpCallView {
    HttpCallView { method: Method::Post, path, query: Seq::empty(), body: Some(body) }
}

/// A `GET` with a query.
pub open spec fn get_of(path: Seq<char>, query: Seq<(Seq<char>, Seq<char>)>) -> HttpCallView {
    HttpCallView { method: Method::Get, path, query, body: None }
}

impl HttpCallView {
    /// What was not done, when nobody answered.
    pub open spec fn undone(self) -> Seq<char> {
        match self.method {
            Method::Get => "GET "@ + self.path,
            Method::Post => "POST "@ + self.path,
        }
    }
}

impl HttpCall {
    /// A `POST` of a body.
    pub fn post(path: String, body: Json) -> (r: HttpCall)
        ensures
            r@ == post_of(path@, body@),
    {
        let r = HttpCall { method: Method::Post, path, query: Vec::new(), body: Some(body) };
        assert(r@.query =~= Seq::empty());
        r
    }

    /// A `GET` with a query.
    pub fn get(path: &str, query: Vec<(String, String)>) -> (r: HttpCall)
        ensures
            r@ == get_of(path@, query_view(query@)),
    {
        HttpCall { method: Method::Get, path: path.to_owned(), query, body: None }
    }

    /// The failure of a request that nobody answered.
    pub fn unanswered(&self, cause: &str) -> (r: Failure)
        ensures
            r@ == failure::caused(self@.undone(), cause@),
    {
        let mut summary: String = match self.method {
            Method::Get => "GET ".to_owned(),
            Method::Post => "POST ".to_owned(),
        };
        summary.append(self.path.as_str());
        Failure::because(summary.as_str(), cause)
    }
}

/// The number and the reason of a status, as a person reads them.
pub uninterp spec fn status_line(code: u16) -> Seq<char>;

/// `reqwest::StatusCode`, made from its number and printed: the number, a
/// space and the reason that goes with it. The reason depends on the number
/// alone. A number that has not three digits is no status, and gives nothing.
#[verifier::external_body]
pub(crate) fn status_text(code: u16) -> (r: String)
    ensures
        r@ == status_line(code),
        100 <= code <= 999 ==> text::has_prefix(r@, text::decimal(code as nat) + " "@),
        !(100 <= code <= 999) ==> r@.len() == 0,
{
    reqwest::StatusCode::from_u16(code).map(|status| status.to_string()).unwrap_or_default()
}

/// What a query holds under a name, in its order.
pub open spec fn values_under(query: Seq<(Seq<char>, Seq<char>)>, key: Seq<char>) -> Seq<Seq<char>>
    decreases query.len(),
{
    if query.len() == 0 {
        Seq::empty()
    } else {
        let before = values_under(query.drop_last(), key);
        if query.last().0 == key {
            before.push(query.last().1)
        } else {
            before
        }
    }
}

/// A pair at the end of a query is found under its name, and under no other.
pub proof fn lemma_value_pushed(
    query: Seq<(Seq<char>, Seq<char>)>,
    name: Seq<char>,
    value: Seq<char>,
    key: Seq<char>,
)
    ensures
        values_under(query.push((name, value)), key) == if name == key {
            values_under(query, key).push(value)
        } else {
            values_under(query, key)
        },
{
    assert(query.push((name, value)).drop_last() =~= query);
}

/// A request is made as it was put: a body is posted and a query is got.
pub proof fn a_request_is_made_as_it_was_put(
    path: String,
    body: Json,
    posted: HttpCall,
    place: &str,
    query: Vec<(String, String)>,
    got: HttpCall,
)
    requires
        call_ensures(HttpCall::post, (path, body), posted),
        call_ensures(HttpCall::get, (place, query), got),
    ensures
        posted.method == Method::Post,
        posted.path@ == path@,
        posted@.body == Some(body@),
        posted.query@.len() == 0,
        got.method == Method::Get,
        got.path@ == place@,
        got@.query == query_view(query@),
        got.body is None,
{
    assert(posted@.path == posted.path@);
    assert(query_view(posted.query@).len() == posted.query@.len());
    assert(got@.path == got.path@);
}

/// A request that nobody answered is named in the failure, together with what
/// the system said.
pub proof fn a_request_without_an_answer_is_named(call: HttpCall, cause: &str, r: Failure)
    requires
        call_ensures(HttpCall::unanswered, (&call, cause), r),
    ensures
        text::has_suffix(r.summary@, call.path@),
        call.method == Method::Get ==> text::has_prefix(r.summary@, "GET "@),
        call.method == Method::Post ==> text::has_prefix(r.summary@, "POST "@),
        r.cause is Some,
        r.cause->0@ == cause@,
{
    assert(r@.summary == r.summary@);
    assert(r@.cause == text::optional(r.cause));
    let said = r.summary@;
    assert(said.skip(said.len() - call.path@.len()) =~= call.path@);
    assert(call.method == Method::Get ==> said.take("GET "@.len() as int) =~= "GET "@);
    assert(call.method == Method::Post ==> said.take("POST "@.len() as int) =~= "POST "@);
}

} // verus!
