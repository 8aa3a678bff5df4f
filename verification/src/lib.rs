//! Request-dispatch and response-negotiation layer of a minimal HTTP
//! server toolkit.
//!
//! The library holds the verified core: the request/response envelope
//! with its exactly-once reply handle and cached body, the weighted
//! preference-header parser (`input`), the content-encoding engine
//! (`content_encoding`) and the per-request dispatch state machine
//! (`dispatch`). Listening sockets, worker threads and the HTTP wire
//! protocol are outside collaborators: a program hands this library
//! plain values and transmits what it gets back.

pub mod content_encoding;
pub mod dispatch;
pub mod input;
pub mod text;

use vstd::prelude::*;
use vstd::slice::{slice_index_get, slice_to_vec};
use vstd::string::StringSliceAdditionalSpecFns;
use crate::text::{chars_of, eq_chars, lower, lower_vec};

verus! {

/// An error produced while routing a request to a handler.
#[derive(Clone, Debug, PartialEq, Eq, Structural)]
pub enum RouteError {
    /// Couldn't find a way to handle this request.
    NoRouteFound,
    /// The request's input could not be understood.
    WrongInput,
}

/// Mathematical view of a header list: ordered name/value pairs,
/// duplicates allowed.
pub open spec fn headers_view(hs: Seq<(String, String)>) -> Seq<(Seq<char>, Seq<char>)> {
    hs.map_values(|p: (String, String)| (p.0@, p.1@))
}

/// The first header whose case-folded name equals `key_folded`.
pub open spec fn header_lookup(
    hs: Seq<(Seq<char>, Seq<char>)>,
    key_folded: Seq<char>,
) -> Option<Seq<char>>
    decreases hs.len(),
{
    if hs.len() == 0 {
        None
    } else if lower(hs[0].0) == key_folded {
        Some(hs[0].1)
    } else {
        header_lookup(hs.skip(1), key_folded)
    }
}

/// Mathematical view of a request envelope.
pub struct RequestView {
    /// The raw URL line, undecoded.
    pub url: Seq<char>,
    /// The request headers, in order of arrival.
    pub headers: Seq<(Seq<char>, Seq<char>)>,
    /// The body bytes the connection still holds, not yet read.
    pub pending: Option<Seq<u8>>,
    /// The body bytes already read and cached.
    pub cache: Option<Seq<u8>>,
    /// The reply handle: the id of the connection this request came in
    /// on, while the right to reply has not been surrendered yet.
    pub connection: Option<int>,
}

impl RequestView {
    /// The body is available in exactly one place: still unread, or
    /// cached — never both, never neither.
    pub open spec fn wf(self) -> bool {
        self.pending is Some <==> self.cache is None
    }

    /// The request's body bytes, wherever they sit.
    pub open spec fn body_bytes(self) -> Seq<u8> {
        match self.cache {
            Some(d) => d,
            None => match self.pending {
                Some(d) => d,
                None => Seq::empty(),
            },
        }
    }

    /// The envelope after a body read: the unread source is consumed
    /// and the cache holds the bytes.
    pub open spec fn after_read(self) -> RequestView {
        RequestView { pending: None, cache: Some(self.body_bytes()), ..self }
    }

    /// The envelope after the reply handle is surrendered.
    pub open spec fn after_take(self) -> RequestView {
        RequestView { connection: None, ..self }
    }
}

/// The one-time right to transmit the reply on a connection.
pub struct Connection {
    /// Identifies the connection the reply must go out on.
    pub id: u64,
}

/// Represents a request made by the client.
pub struct Request {
    url: String,
    headers: Vec<(String, String)>,
    pending: Option<Vec<u8>>,
    cache: Option<Vec<u8>>,
    connection: Option<Connection>,
}

impl View for Request {
    type V = RequestView;

    closed spec fn view(&self) -> RequestView {
        RequestView {
            url: self.url@,
            headers: headers_view(self.headers@),
            pending: match self.pending {
                Some(v) => Some(v@),
                None => None,
            },
            cache: match self.cache {
                Some(v) => Some(v@),
                None => None,
            },
            connection: match self.connection {
                Some(c) => Some(c.id as int),
                None => None,
            },
        }
    }
}

/// Copies a byte buffer.
fn copy_bytes(v: &Vec<u8>) -> (r: Vec<u8>)
    ensures
        r@ == v@,
{
    let mut r: Vec<u8> = Vec::new();
    let mut i: usize = 0;
    while i < v.len()
        invariant
            i <= v@.len(),
            r@.len() == i,
            forall|k: int| 0 <= k < i ==> r@[k] == v@[k],
        decreases v@.len() - i,
    {
        r.push(v[i]);
        i += 1;
    }
    proof {
        assert(r@ =~= v@);
    }
    r
}

impl Request {
    /// Wraps one inbound request: its URL, its headers, the body bytes
    /// the connection will deliver, and the reply handle.
    pub fn new(
        url: String,
        headers: Vec<(String, String)>,
        body: Vec<u8>,
        connection: Connection,
    ) -> (r: Request)
        ensures
            r@.url == url@,
            r@.headers == headers_view(headers@),
            r@.pending == Some(body@),
            r@.cache is None,
            r@.connection == Some(connection.id as int),
            r@.wf(),
    {
        Request { url, headers, pending: Some(body), cache: None, connection: Some(connection) }
    }

    /// Returns the URL requested by the client. It is not decoded and
    /// thus can contain `%20` or other escaped characters.
    pub fn url(&self) -> (r: &str)
        ensures
            r@ == self@.url,
    {
        self.url.as_str()
    }

    /// Returns the value of the first header of the request whose name
    /// matches `key`, compared case-insensitively.
    pub fn header(&self, key: &str) -> (r: Option<String>)
        ensures
            (match r {
                Some(v) => header_lookup(self@.headers, lower(key@)) == Some(v@),
                None => header_lookup(self@.headers, lower(key@)) is None,
            }),
    {
        let kc = chars_of(key);
        let kl = lower_vec(kc.as_slice());
        proof {
            assert(self@.headers.skip(0) =~= self@.headers);
        }
        let mut i: usize = 0;
        while i < self.headers.len()
            invariant
                i <= self.headers@.len(),
                kl@ == lower(key@),
                header_lookup(self@.headers, lower(key@))
                    == header_lookup(self@.headers.skip(i as int), lower(key@)),
            decreases self.headers@.len() - i,
        {
            let pair = slice_index_get(self.headers.as_slice(), i);
            let nc = chars_of(pair.0.as_str());
            let nl = lower_vec(nc.as_slice());
            proof {
                assert(self@.headers.skip(i as int)[0] == self@.headers[i as int]);
                assert(self@.headers[i as int] == (self.headers@[i as int].0@,
                    self.headers@[i as int].1@));
            }
            if eq_chars(nl.as_slice(), kl.as_slice()) {
                return Some(pair.1.clone());
            }
            proof {
                assert(self@.headers.skip(i as int).skip(1) =~= self@.headers.skip(i as int + 1));
            }
            i += 1;
        }
        proof {
            assert(self@.headers.skip(self.headers@.len() as int) =~= Seq::empty());
        }
        None
    }

    /// Returns the data of the request. The first call consumes the
    /// unread body and caches it; every later call returns the same
    /// bytes from the cache without touching the source again.
    pub fn data(&mut self) -> (r: Vec<u8>)
        requires
            old(self)@.wf(),
        ensures
            final(self)@ == old(self)@.after_read(),
            final(self)@.wf(),
            r@ == old(self)@.body_bytes(),
    {
        let cached = match &self.cache {
            Some(d) => Some(copy_bytes(d)),
            None => None,
        };
        match cached {
            Some(d) => {
                proof {
                    assert(self@ == old(self)@.after_read());
                }
                d
            },
            None => {
                let taken = self.pending.take();
                match taken {
                    Some(b) => {
                        let r = copy_bytes(&b);
                        self.cache = Some(b);
                        proof {
                            assert(self@ == old(self)@.after_read());
                        }
                        r
                    },
                    None => vstd::pervasive::unreached(),
                }
            },
        }
    }

    /// Surrenders the one-time right to reply on this request's
    /// connection. Only the first call obtains the handle; every later
    /// call yields nothing, so no connection can receive two replies.
    pub fn take_connection(&mut self) -> (r: Option<Connection>)
        ensures
            final(self)@ == old(self)@.after_take(),
            (match r {
                Some(c) => old(self)@.connection == Some(c.id as int),
                None => old(self)@.connection is None,
            }),
    {
        let r = self.connection.take();
        proof {
            assert(self@ == old(self)@.after_take());
        }
        r
    }
}

/// Reading the body is idempotent: a second read returns the identical
/// bytes and leaves the envelope exactly as the first read left it, so
/// the unread source is never consumed twice.
pub proof fn lemma_data_idempotent(rv: RequestView)
    requires
        rv.wf(),
    ensures
        rv.after_read().after_read() == rv.after_read(),
        rv.after_read().body_bytes() == rv.body_bytes(),
        rv.after_read().pending is None,
{
}

/// The reply handle is surrendered at most once: after a take the
/// envelope holds none, and taking again changes nothing and yields
/// nothing, so no request's connection can carry two replies.
pub proof fn lemma_reply_exactly_once(rv: RequestView)
    ensures
        rv.after_take().connection is None,
        rv.after_take().after_take() == rv.after_take(),
{
}

/// Mathematical view of a response.
pub struct ResponseView {
    /// The HTTP status code.
    pub status: int,
    /// The response headers, in the order they will be sent.
    pub headers: Seq<(Seq<char>, Seq<char>)>,
    /// The body bytes.
    pub data: Seq<u8>,
}

/// Contains a prototype of a response: a status, ordered headers and
/// body bytes, owned by the handler until handed back for transmission.
pub struct Response {
    /// The HTTP status code.
    pub status: u16,
    /// The response headers, in the order they will be sent.
    pub headers: Vec<(String, String)>,
    /// The body bytes.
    pub data: Vec<u8>,
}

impl View for Response {
    type V = ResponseView;

    open spec fn view(&self) -> ResponseView {
        ResponseView {
            status: self.status as int,
            headers: headers_view(self.headers@),
            data: self.data@,
        }
    }
}

impl Response {
    /// Builds a response from its parts: status code, headers and body
    /// bytes.
    pub fn from_data(status: u16, headers: Vec<(String, String)>, data: Vec<u8>) -> (r: Response)
        ensures
            r@.status == status as int,
            r@.headers == headers_view(headers@),
            r@.data == data@,
    {
        Response { status, headers, data }
    }

    /// The HTTP status code of this response.
    pub fn status_code(&self) -> (r: u16)
        ensures
            r as int == self@.status,
    {
        self.status
    }

    /// The headers of this response, in order.
    pub fn headers(&self) -> (r: &Vec<(String, String)>)
        ensures
            headers_view(r@) == self@.headers,
    {
        &self.headers
    }

    /// The body bytes of this response.
    pub fn body(&self) -> (r: &Vec<u8>)
        ensures
            r@ == self@.data,
    {
        &self.data
    }

    /// Builds a default response to handle the given route error: an
    /// empty 404 reply for a missing route, an empty 400 reply for bad
    /// input.
    pub fn from_error(err: &RouteError) -> (r: Response)
        ensures
            r@.status == (match err {
                RouteError::NoRouteFound => 404int,
                RouteError::WrongInput => 400int,
            }),
            r@.headers == Seq::<(Seq<char>, Seq<char>)>::empty(),
            r@.data == Seq::<u8>::empty(),
    {
        let status: u16 = match err {
            RouteError::NoRouteFound => 404,
            RouteError::WrongInput => 400,
        };
        let r = Response { status, headers: Vec::new(), data: Vec::new() };
        proof {
            assert(r@.headers =~= Seq::<(Seq<char>, Seq<char>)>::empty());
        }
        r
    }

    /// Builds a `Response` that redirects the user to another URL with
    /// a 303 status.
    pub fn redirect(target: &str) -> (r: Response)
        ensures
            r@.status == 303,
            r@.headers == seq![("Location"@, target@)],
            r@.data == Seq::<u8>::empty(),
    {
        let mut headers: Vec<(String, String)> = Vec::new();
        headers.push(("Location".to_owned(), target.to_owned()));
        let r = Response { status: 303, headers, data: Vec::new() };
        proof {
            assert(r@.headers =~= seq![("Location"@, target@)]);
        }
        r
    }

    /// Builds a `Response` that outputs HTML.
    pub fn html(content: &[u8]) -> (r: Response)
        ensures
            r@.status == 200,
            r@.headers == seq![("Content-Type"@, "text/html; charset=utf8"@)],
            r@.data == content@,
    {
        let mut headers: Vec<(String, String)> = Vec::new();
        headers.push(("Content-Type".to_owned(), "text/html; charset=utf8".to_owned()));
        let r = Response { status: 200, headers, data: slice_to_vec(content) };
        proof {
            assert(r@.headers =~= seq![("Content-Type"@, "text/html; charset=utf8"@)]);
        }
        r
    }

    /// Builds a `Response` that outputs JSON. Takes the already
    /// serialized JSON text; its UTF-8 bytes become the body.
    pub fn json(content: &str) -> (r: Response)
        ensures
            r@.status == 200,
            r@.headers == seq![("Content-Type"@, "application/json"@)],
            r@.data == content.spec_bytes(),
    {
        let mut headers: Vec<(String, String)> = Vec::new();
        headers.push(("Content-Type".to_owned(), "application/json".to_owned()));
        let r = Response { status: 200, headers, data: slice_to_vec(content.as_bytes()) };
        proof {
            assert(r@.headers =~= seq![("Content-Type"@, "application/json"@)]);
        }
        r
    }
}

} // verus!
