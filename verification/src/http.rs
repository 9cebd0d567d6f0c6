//! An HTTP request as the server reads it: the resource it asks for and its
//! headers. The library has no HTTP grammar of its own: the head of a request
//! is read by the `httparse` crate, and what comes back is carried over into
//! [`HttpRequest`].

use vstd::prelude::*;
use crate::error::ServerError;
use crate::text::str_equal;

verus! {

/// A parsed HTTP request.
#[derive(Debug)]
pub struct HttpRequest {
    pub resource: String,
    pub headers: Vec<(String, String)>,
}

/// The mathematical value of an [`HttpRequest`].
pub ghost struct HttpRequestView {
    pub resource: Seq<char>,
    pub headers: Seq<(Seq<char>, Seq<char>)>,
}

/// The value of the first of `headers` whose name is `name`, letter for
/// letter.
pub open spec fn find_header(headers: Seq<(Seq<char>, Seq<char>)>, name: Seq<char>) -> Option<
    Seq<char>,
>
    decreases headers.len(),
{
    if headers.len() == 0 {
        None
    } else if headers[0].0 == name {
        Some(headers[0].1)
    } else {
        find_header(headers.drop_first(), name)
    }
}

impl HttpRequestView {
    pub open spec fn header(self, name: Seq<char>) -> Option<Seq<char>> {
        find_header(self.headers, name)
    }
}

impl View for HttpRequest {
    type V = HttpRequestView;

    open spec fn view(&self) -> HttpRequestView {
        HttpRequestView {
            resource: self.resource@,
            headers: Seq::new(
                self.headers.len() as nat,
                |i: int| (self.headers[i].0@, self.headers[i].1@),
            ),
        }
    }
}

impl HttpRequest {
    /// The path that the request asks for.
    pub fn resource_location(&self) -> (r: &str)
        ensures
            r@ == self@.resource,
    {
        self.resource.as_str()
    }

    /// The value of the header `name`. Names are compared letter for letter,
    /// and the first header of that name counts.
    pub fn get_header_value(&self, name: &str) -> (r: Option<&str>)
        ensures
            match self@.header(name@) {
                Some(value) => r matches Some(v) && v@ == value,
                None => r is None,
            },
    {
        let ghost all = self@.headers;
        let mut i: usize = 0;
        assert(all.skip(0) == all);
        while i < self.headers.len()
            invariant
                i <= self.headers.len(),
                all == self@.headers,
                find_header(all, name@) == find_header(all.skip(i as int), name@),
            decreases self.headers.len() - i,
        {
            let ghost rest = all.skip(i as int);
            assert(rest[0] == all[i as int]);
            assert(rest.drop_first() == all.skip(i + 1));
            if str_equal(self.headers[i].0.as_str(), name) {
                return Some(self.headers[i].1.as_str());
            }
            i += 1;
        }
        assert(all.skip(i as int).len() == 0);
        None
    }
}

/// How many headers a request may have.
pub const MAX_HEADERS: usize = 64;

/// The request that the `httparse` crate reads out of a text when it is given
/// room for `MAX_HEADERS` headers; none where the text is no complete head of
/// a request, or has more headers than that.
pub uninterp spec fn http_parse(text: Seq<char>) -> Option<HttpRequestView>;

/// `httparse::Request::parse`, with room for `MAX_HEADERS` headers: the path
/// and the headers of the request, in their order, where the crate reports a
/// complete head, and none where it reports an error or wants more bytes. The
/// contract names what comes back.
#[verifier::external_body]
fn read_request(text: &str) -> (r: Option<HttpRequest>)
    ensures
        http_parse(text@) == match r {
            Some(request) => Some(request@),
            None => None,
        },
{
    let mut headers = [httparse::EMPTY_HEADER; MAX_HEADERS];
    let mut request = httparse::Request::new(&mut headers);
    match request.parse(text.as_bytes()) {
        Ok(httparse::Status::Complete(_)) => {},
        _ => return None,
    }
    let resource = request.path?.to_owned();
    let headers = request
        .headers
        .iter()
        .map(|header| (header.name.to_owned(), String::from_utf8_lossy(header.value).into_owned()))
        .collect();
    Some(HttpRequest { resource, headers })
}

/// The request that `text` holds; a text that holds none, or one with more
/// than `MAX_HEADERS` headers, is a malformed request.
pub fn parse_request(text: &str) -> (r: Result<HttpRequest, ServerError>)
    ensures
        match http_parse(text@) {
            Some(request) => r matches Ok(found) && found@ == request,
            None => r matches Err(error) && error is MalformedRequest,
        },
{
    match read_request(text) {
        Some(request) => Ok(request),
        None => Err(ServerError::MalformedRequest),
    }
}

} // verus!
