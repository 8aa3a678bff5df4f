//! Applies content encoding to a response.
//!
//! `apply` analyzes the `Accept-Encoding` header of the request. If one
//! of the encodings is recognized and supported by the server, it adds
//! a `Content-Encoding` header to the `Response` and encodes its body.
//!
//! If the response already has a `Content-Encoding` header, `apply` is
//! a no-op. If the response does not declare a textual `Content-Type`,
//! `apply` is a no-op: encoding is purely an optimization and is only
//! worthwhile on text-like bodies.

use vstd::prelude::*;
use vstd::slice::slice_index_get;

use crate::{header_lookup, Request, Response, ResponseView};
use crate::input::{elem_quality, priority_header_preferred, priority_preferred, preferred_prefix};
use crate::text::{
    chars_of, contains_chars, contains_exec, eq_chars, lower, lower_vec, starts_with_chars,
    starts_with_exec, trim, trim_front, trim_back, split,
};

verus! {

/// A `Content-Type` value that names textual content worth encoding:
/// it starts with `text/` or mentions `javascript`, `json`, `xml` or
/// `font`, case-insensitively. This is a heuristic gate; false
/// positives and negatives are acceptable, never fatal.
pub open spec fn text_eligible(v: Seq<char>) -> bool {
    starts_with_chars(lower(v), "text/"@)
        || contains_chars(lower(v), "javascript"@)
        || contains_chars(lower(v), "json"@)
        || contains_chars(lower(v), "xml"@)
        || contains_chars(lower(v), "font"@)
}

/// The response declares a textual content type.
pub open spec fn is_text(r: ResponseView) -> bool {
    exists|i: int|
        0 <= i < r.headers.len() && lower((#[trigger] r.headers[i]).0) == "content-type"@
            && text_eligible(r.headers[i].1)
}

/// The response already carries a `Content-Encoding` header.
pub open spec fn has_content_encoding(r: ResponseView) -> bool {
    exists|i: int|
        0 <= i < r.headers.len() && lower((#[trigger] r.headers[i]).0) == "content-encoding"@
}

/// What `deflate::deflate_bytes_gzip` returns for the given bytes.
pub uninterp spec fn gzip_of(data: Seq<u8>) -> Seq<u8>;

/// What a brotli encoder at this library's fixed quality returns for
/// the given bytes.
pub uninterp spec fn brotli_of(data: Seq<u8>) -> Seq<u8>;

/// Relies on `deflate::deflate_bytes_gzip`: DEFLATE compression of the
/// input with a default gzip header and trailer; the result is a
/// function of the input bytes alone.
#[verifier::external_body]
fn gzip_compress(data: &[u8]) -> (r: Vec<u8>)
    ensures
        r@ == gzip_of(data@),
{
    deflate::deflate_bytes_gzip(data)
}

/// Relies on `brotli2::read::BrotliEncoder` over an in-memory buffer at
/// a fixed quality: the result is a function of the input bytes alone.
#[verifier::external_body]
fn brotli_compress(data: &[u8]) -> (r: Vec<u8>)
    ensures
        r@ == brotli_of(data@),
{
    let mut encoder = brotli2::read::BrotliEncoder::new(data, 6);
    let mut out: Vec<u8> = Vec::new();
    std::io::Read::read_to_end(&mut encoder, &mut out)
        .expect("reading a brotli encoder over an in-memory buffer");
    out
}

/// The server's encoding preference order, most preferred first.
pub open spec fn encoding_preference() -> Seq<Seq<char>> {
    seq!["br"@, "gzip"@, "x-gzip"@, "identity"@]
}

/// The response after gzip encoding: the body is compressed and a
/// `Content-Encoding: gzip` header is appended.
pub open spec fn gzip_applied(r: ResponseView) -> ResponseView {
    ResponseView {
        headers: r.headers.push(("Content-Encoding"@, "gzip"@)),
        data: gzip_of(r.data),
        ..r
    }
}

/// The response after brotli encoding: the body is compressed and a
/// `Content-Encoding: br` header is appended.
pub open spec fn brotli_applied(r: ResponseView) -> ResponseView {
    ResponseView {
        headers: r.headers.push(("Content-Encoding"@, "br"@)),
        data: brotli_of(r.data),
        ..r
    }
}

/// The request's `Accept-Encoding` value, or the empty string when the
/// header is absent.
pub open spec fn accept_encoding_of(headers: Seq<(Seq<char>, Seq<char>)>) -> Seq<char> {
    match header_lookup(headers, "accept-encoding"@) {
        Some(v) => v,
        None => Seq::empty(),
    }
}

/// What `apply` returns: the response unchanged unless it is textual,
/// not yet encoded, and the header accepts a supported compression.
pub open spec fn apply_spec(accept: Seq<char>, r: ResponseView) -> ResponseView {
    if !is_text(r) {
        r
    } else if has_content_encoding(r) {
        r
    } else {
        match priority_preferred(accept, encoding_preference()) {
            Some(i) => if i == 0 {
                brotli_applied(r)
            } else if i == 1 || i == 2 {
                gzip_applied(r)
            } else {
                r
            },
            None => r,
        }
    }
}

/// Whether the response declares a textual content type; mirrors
/// `is_text`.
fn response_is_text(response: &Response) -> (r: bool)
    ensures
        r == is_text(response@),
{
    let ct = chars_of("content-type");
    let mut i: usize = 0;
    while i < response.headers.len()
        invariant
            i <= response.headers@.len(),
            ct@ == "content-type"@,
            response@.headers.len() == response.headers@.len(),
            forall|j: int|
                0 <= j < i ==> !(lower((#[trigger] response@.headers[j]).0) == "content-type"@
                    && text_eligible(response@.headers[j].1)),
        decreases response.headers@.len() - i,
    {
        let pair = slice_index_get(response.headers.as_slice(), i);
        proof {
            assert(response@.headers[i as int] == (response.headers@[i as int].0@,
                response.headers@[i as int].1@));
        }
        let nc = chars_of(pair.0.as_str());
        let nl = lower_vec(nc.as_slice());
        if eq_chars(nl.as_slice(), ct.as_slice()) {
            let vc = chars_of(pair.1.as_str());
            let vl = lower_vec(vc.as_slice());
            let prefix = chars_of("text/");
            let eligible = starts_with_exec(vl.as_slice(), prefix.as_slice())
                || contains_exec(vl.as_slice(), chars_of("javascript").as_slice())
                || contains_exec(vl.as_slice(), chars_of("json").as_slice())
                || contains_exec(vl.as_slice(), chars_of("xml").as_slice())
                || contains_exec(vl.as_slice(), chars_of("font").as_slice());
            if eligible {
                return true;
            }
        }
        i += 1;
    }
    false
}

/// Whether the response already carries a `Content-Encoding` header;
/// mirrors `has_content_encoding`.
fn response_has_content_encoding(response: &Response) -> (r: bool)
    ensures
        r == has_content_encoding(response@),
{
    let ce = chars_of("content-encoding");
    let mut i: usize = 0;
    while i < response.headers.len()
        invariant
            i <= response.headers@.len(),
            ce@ == "content-encoding"@,
            response@.headers.len() == response.headers@.len(),
            forall|j: int|
                0 <= j < i ==> lower((#[trigger] response@.headers[j]).0) != "content-encoding"@,
        decreases response.headers@.len() - i,
    {
        let pair = slice_index_get(response.headers.as_slice(), i);
        proof {
            assert(response@.headers[i as int] == (response.headers@[i as int].0@,
                response.headers@[i as int].1@));
        }
        let nc = chars_of(pair.0.as_str());
        let nl = lower_vec(nc.as_slice());
        if eq_chars(nl.as_slice(), ce.as_slice()) {
            return true;
        }
        i += 1;
    }
    false
}

/// Compresses the response body with gzip and appends the matching
/// `Content-Encoding` header.
fn gzip(response: &mut Response)
    ensures
        final(response)@ == gzip_applied(old(response)@),
{
    response.headers.push(("Content-Encoding".to_owned(), "gzip".to_owned()));
    let compressed = gzip_compress(response.data.as_slice());
    response.data = compressed;
    proof {
        assert(response@.headers =~= old(response)@.headers.push((
            "Content-Encoding"@,
            "gzip"@,
        )));
    }
}

/// Compresses the response body with brotli and appends the matching
/// `Content-Encoding` header.
fn brotli(response: &mut Response)
    ensures
        final(response)@ == brotli_applied(old(response)@),
{
    response.headers.push(("Content-Encoding".to_owned(), "br".to_owned()));
    let compressed = brotli_compress(response.data.as_slice());
    response.data = compressed;
    proof {
        assert(response@.headers =~= old(response)@.headers.push(("Content-Encoding"@, "br"@)));
    }
}

/// Case folding the `Accept-Encoding` header name.
proof fn lemma_accept_encoding_fold()
    ensures
        lower("Accept-Encoding"@) == "accept-encoding"@,
{
    reveal_strlit("Accept-Encoding");
    reveal_strlit("accept-encoding");
    assert(lower("Accept-Encoding"@) =~= "accept-encoding"@);
}

/// Applies content encoding to the response: if the response is
/// textual and not yet encoded, and the request's `Accept-Encoding`
/// header selects a supported compression, the body is compressed and
/// the matching `Content-Encoding` header is appended; otherwise the
/// response is returned unchanged.
pub fn apply(request: &Request, response: Response) -> (r: Response)
    ensures
        r@ == apply_spec(accept_encoding_of(request@.headers), response@),
{
    let mut response = response;

    // Only text should be encoded. Otherwise just return.
    if !response_is_text(&response) {
        return response;
    }

    // If any of the response's headers is `Content-Encoding`, return
    // immediately: never double-encode.
    if response_has_content_encoding(&response) {
        return response;
    }

    // The list of content encodings the server supports, ordered from
    // the most desired to the least desired.
    let mut prefs: Vec<&str> = Vec::new();
    prefs.push("br");
    prefs.push("gzip");
    prefs.push("x-gzip");
    prefs.push("identity");
    let prefs_slice: &[&str] = prefs.as_slice();
    proof {
        assert(prefs_slice.deep_view() =~= encoding_preference());
    }

    proof {
        lemma_accept_encoding_fold();
    }
    let accept: String = match request.header("Accept-Encoding") {
        Some(v) => v,
        None => String::new(),
    };
    proof {
        assert(accept@ == accept_encoding_of(request@.headers));
    }

    match priority_header_preferred(accept.as_str(), prefs_slice) {
        Some(preferred_index) => {
            if preferred_index == 0 {
                brotli(&mut response);
            } else if preferred_index == 1 || preferred_index == 2 {
                gzip(&mut response);
            }
        },
        None => {},
    }
    response
}

/// Already-encoded responses pass through untouched: with a
/// `Content-Encoding` header present, `apply` is the identity, whatever
/// the request's headers say.
pub proof fn lemma_already_encoded_identity(accept: Seq<char>, r: ResponseView)
    requires
        has_content_encoding(r),
    ensures
        apply_spec(accept, r) == r,
{
}

/// Non-textual responses pass through untouched: without a textual
/// `Content-Type`, `apply` is the identity and the body is never
/// modified.
pub proof fn lemma_non_text_identity(accept: Seq<char>, r: ResponseView)
    requires
        !is_text(r),
    ensures
        apply_spec(accept, r) == r,
{
}

/// When no supported token is acceptable, nothing is preferred.
proof fn lemma_preferred_none(h: Seq<char>, elems: Seq<Seq<char>>, n: int)
    requires
        forall|i: int| 0 <= i < n ==> elem_quality(h, lower(#[trigger] elems[i])) == 0,
    ensures
        preferred_prefix(h, elems, n) is None,
    decreases n,
{
    if n > 0 {
        lemma_preferred_none(h, elems, n - 1);
    }
}

/// A header that gives every supported encoding quality zero — because
/// its tokens are unsupported, or supported but weighted `q=0` —
/// leaves the response untouched: no body change, no header added.
pub proof fn lemma_nothing_acceptable_identity(accept: Seq<char>, r: ResponseView)
    requires
        forall|i: int|
            0 <= i < encoding_preference().len() ==> elem_quality(
                accept,
                lower(#[trigger] encoding_preference()[i]),
            ) == 0,
    ensures
        apply_spec(accept, r) == r,
{
    lemma_preferred_none(accept, encoding_preference(), encoding_preference().len() as int);
}

/// Entries that are zero-quality or miss the token `e` (and are no
/// wildcard) never give `e` a positive quality.
proof fn lemma_best_q_zero(h: Seq<char>, e: Seq<char>, n: int)
    requires
        n <= crate::input::header_entries(h).len(),
        forall|k: int|
            0 <= k < crate::input::header_entries(h).len() ==> (#[trigger] crate::input::header_entries(
                h,
            )[k]).1 == 0 || (crate::input::header_entries(h)[k].0 != e
                && crate::input::header_entries(h)[k].0 != crate::input::wildcard_token()),
    ensures
        crate::input::best_q_prefix(h, n, e) <= 0,
    decreases n,
{
    if n > 0 {
        lemma_best_q_zero(h, e, n - 1);
    }
}

/// A header whose every entry is zero-quality, or names a token that is
/// neither a supported encoding nor the wildcard, leaves the response
/// untouched: the body is unchanged and no `Content-Encoding` header is
/// added.
pub proof fn lemma_unsupported_or_zero_identity(accept: Seq<char>, r: ResponseView)
    requires
        forall|k: int|
            0 <= k < crate::input::header_entries(accept).len() ==> (#[trigger] crate::input::header_entries(
                accept,
            )[k]).1 == 0 || ((forall|i: int|
                0 <= i < encoding_preference().len() ==> crate::input::header_entries(accept)[k].0
                    != lower(#[trigger] encoding_preference()[i]))
                && crate::input::header_entries(accept)[k].0 != crate::input::wildcard_token()),
    ensures
        apply_spec(accept, r) == r,
{
    assert forall|i: int|
        0 <= i < encoding_preference().len() implies elem_quality(
        accept,
        lower(#[trigger] encoding_preference()[i]),
    ) == 0 by {
        let e = lower(encoding_preference()[i]);
        assert forall|k: int|
            0 <= k < crate::input::header_entries(accept).len() implies (#[trigger] crate::input::header_entries(
            accept,
        )[k]).1 == 0 || (crate::input::header_entries(accept)[k].0 != e
            && crate::input::header_entries(accept)[k].0 != crate::input::wildcard_token()) by {
            if crate::input::header_entries(accept)[k].1 != 0 {
                assert(crate::input::header_entries(accept)[k].0 != lower(
                    encoding_preference()[i],
                ));
            }
        }
        lemma_best_q_zero(accept, e, crate::input::header_entries(accept).len() as int);
        assert(crate::input::best_q_prefix(
            accept,
            crate::input::header_entries(accept).len() as int,
            e,
        ) >= 0) by {
            crate::input::lemma_best_q_nonnegative(
                accept,
                e,
                crate::input::header_entries(accept).len() as int,
            );
        }
    }
    lemma_nothing_acceptable_identity(accept, r);
}

/// The entries of the empty header value: a single empty token at
/// default quality, which matches no supported encoding.
proof fn lemma_empty_header_entries()
    ensures
        crate::input::header_entries(Seq::<char>::empty()) =~= seq![
            (Seq::<char>::empty(), 1000int),
        ],
{
    let h = Seq::<char>::empty();
    assert(split(h, ',') =~= seq![Seq::<char>::empty()]);
    assert(split(h, ';') =~= seq![Seq::<char>::empty()]);
    assert(trim_front(h) == h);
    assert(trim_back(h) == h);
    assert(trim(h) == h);
    assert(lower(h) =~= h);
    assert(crate::input::entry_token(h) =~= Seq::<char>::empty());
    assert(seq![Seq::<char>::empty()].skip(1) =~= Seq::<Seq<char>>::empty());
    assert(crate::input::entry_q(h) == 1000);
}

/// An empty — or absent, which `apply` treats the same — negotiation
/// header selects nothing: no encoding is applied and no
/// `Content-Encoding` header is added.
pub proof fn lemma_empty_header_identity(r: ResponseView)
    ensures
        apply_spec(Seq::<char>::empty(), r) == r,
{
    let h = Seq::<char>::empty();
    lemma_empty_header_entries();
    reveal_strlit("br");
    reveal_strlit("gzip");
    reveal_strlit("x-gzip");
    reveal_strlit("identity");
    assert forall|i: int|
        0 <= i < encoding_preference().len() implies elem_quality(
        h,
        lower(#[trigger] encoding_preference()[i]),
    ) == 0 by {
        let e = lower(encoding_preference()[i]);
        assert(e.len() > 0);
        let ents = crate::input::header_entries(h);
        assert(ents.len() == 1);
        assert(ents[0].0.len() == 0);
        assert(crate::input::wildcard_token().len() == 1);
        assert(!crate::input::entry_matches(h, ents[0], e));
        assert(crate::input::best_q_prefix(h, 0, e) == 0);
        assert(crate::input::best_q_prefix(h, 1, e) == 0);
        assert(elem_quality(h, e) == 0);
    }
    lemma_nothing_acceptable_identity(h, r);
}

} // verus!
