//! The request/response transformation engine: hop-by-hop header filtering,
//! outbound request construction with credential and forwarding-header
//! injection, response sanitizing, and the per-request pipeline decisions.

use vstd::prelude::*;
use vstd::utf8::encode_utf8;

use crate::config::{
    all_users_known, collection_uri_spec, first_match, lookup_cred, BaseUri, Calendar, Config,
};
use crate::text::{eq_ignore_ascii_case, str_eq, str_eq_ignore_ascii_case};

verus! {

/// One HTTP header entry: a name and a value, both held as text.
pub struct Header {
    pub name: String,
    pub value: String,
}

impl Clone for Header {
    fn clone(&self) -> (r: Self)
        ensures
            r == *self,
    {
        Header { name: self.name.clone(), value: self.value.clone() }
    }
}

impl View for Header {
    type V = (Seq<char>, Seq<char>);

    open spec fn view(&self) -> (Seq<char>, Seq<char>) {
        (self.name@, self.value@)
    }
}

/// The views of a header list, in order.
pub open spec fn views_of(hs: Seq<Header>) -> Seq<(Seq<char>, Seq<char>)> {
    hs.map(|i: int, h: Header| h@)
}

/// Whether `name` is one of the hop-by-hop header names, up to ASCII case.
pub open spec fn is_hop_name(name: Seq<char>) -> bool {
    ||| eq_ignore_ascii_case(name, "Connection"@)
    ||| eq_ignore_ascii_case(name, "Keep-Alive"@)
    ||| eq_ignore_ascii_case(name, "Proxy-Authentication"@)
    ||| eq_ignore_ascii_case(name, "Proxy-Authorization"@)
    ||| eq_ignore_ascii_case(name, "TE"@)
    ||| eq_ignore_ascii_case(name, "Trailers"@)
    ||| eq_ignore_ascii_case(name, "Transfer-Encoding"@)
    ||| eq_ignore_ascii_case(name, "Upgrade"@)
}

/// Whether `name` is the `Authorization` header name, up to ASCII case.
pub open spec fn is_auth_name(name: Seq<char>) -> bool {
    eq_ignore_ascii_case(name, "Authorization"@)
}

/// Whether `name` is the forwarding-address header name, up to ASCII case.
pub open spec fn is_forwarded_name(name: Seq<char>) -> bool {
    eq_ignore_ascii_case(name, "X-Forwarded-For"@)
}

/// The header list with every hop-by-hop entry removed; order and
/// multiplicity of the remaining entries are preserved.
pub open spec fn strip_hop(hs: Seq<(Seq<char>, Seq<char>)>) -> Seq<(Seq<char>, Seq<char>)> {
    hs.filter(|h: (Seq<char>, Seq<char>)| !is_hop_name(h.0))
}

/// The inbound headers that survive on the outbound request before
/// injection: hop-by-hop entries and any existing `Authorization` are gone.
pub open spec fn kept_headers(hs: Seq<(Seq<char>, Seq<char>)>) -> Seq<(Seq<char>, Seq<char>)> {
    hs.filter(|h: (Seq<char>, Seq<char>)| !is_hop_name(h.0) && !is_auth_name(h.0))
}

/// Whether some entry carries the forwarding-address header name.
pub open spec fn has_forwarded(hs: Seq<(Seq<char>, Seq<char>)>) -> bool {
    exists|i: int| 0 <= i < hs.len() && is_forwarded_name(#[trigger] hs[i].0)
}

/// The value half of the `Authorization` header for a pre-encoded credential.
pub open spec fn basic_auth_value(cred: Seq<char>) -> Seq<char> {
    "Basic "@ + cred
}

/// The complete outbound header list: the kept inbound headers, then the
/// overwritten `Authorization`, then — only if the inbound request carried no
/// forwarding-address header — the caller's address.
pub open spec fn outbound_headers(
    inbound: Seq<(Seq<char>, Seq<char>)>,
    client: Seq<char>,
    cred: Seq<char>,
) -> Seq<(Seq<char>, Seq<char>)> {
    let base = kept_headers(inbound).push(("Authorization"@, basic_auth_value(cred)));
    if has_forwarded(inbound) {
        base
    } else {
        base.push(("X-Forwarded-For"@, client))
    }
}

/// Whether hyper accepts `b` inside a header value.
pub open spec fn valid_header_byte(b: u8) -> bool {
    b == 9 || (b >= 32 && b != 127)
}

/// Whether hyper accepts the text as a header value: every byte of its UTF-8
/// encoding must be a tab or a non-delete byte of at least 32.
pub open spec fn valid_header_text(s: Seq<char>) -> bool {
    forall|i: int|
        0 <= i < encode_utf8(s).len() ==> valid_header_byte(#[trigger] encode_utf8(s)[i])
}

/// Whether hyper's URI parser accepts the string; the outcome depends on the
/// characters alone.
pub uninterp spec fn valid_uri(s: Seq<char>) -> bool;

/// Relies on hyper's `Uri::try_from` for `&str` (the `http` crate): whether
/// a string parses as a URI is a function of its characters alone.
#[verifier::external_body]
fn uri_ok(s: &str) -> (r: bool)
    ensures
        r == valid_uri(s@),
{
    hyper::Uri::try_from(s).is_ok()
}

/// Relies on hyper's `HeaderValue::from_str` (the `http` crate): a value is
/// accepted exactly when every byte is a tab or a non-delete byte >= 32.
#[verifier::external_body]
fn header_value_ok(s: &str) -> (r: bool)
    ensures
        r == valid_header_text(s@),
{
    hyper::header::HeaderValue::from_str(s).is_ok()
}

/// Whether `name` is classified as hop-by-hop (case-insensitive).
pub fn is_hop_header(name: &str) -> (r: bool)
    ensures
        r == is_hop_name(name@),
{
    str_eq_ignore_ascii_case(name, "Connection") || str_eq_ignore_ascii_case(name, "Keep-Alive")
        || str_eq_ignore_ascii_case(name, "Proxy-Authentication") || str_eq_ignore_ascii_case(
        name,
        "Proxy-Authorization",
    ) || str_eq_ignore_ascii_case(name, "TE") || str_eq_ignore_ascii_case(name, "Trailers")
        || str_eq_ignore_ascii_case(name, "Transfer-Encoding") || str_eq_ignore_ascii_case(
        name,
        "Upgrade",
    )
}

/// Filtering one more entry keeps it exactly when it is not hop-by-hop.
proof fn lemma_strip_hop_push(hs: Seq<(Seq<char>, Seq<char>)>, x: (Seq<char>, Seq<char>))
    ensures
        strip_hop(hs.push(x)) == if !is_hop_name(x.0) {
            strip_hop(hs).push(x)
        } else {
            strip_hop(hs)
        },
{
    reveal(Seq::filter);
    assert(hs.push(x).drop_last() =~= hs);
}

/// Keeping one more entry keeps it exactly when it is neither hop-by-hop nor
/// an `Authorization` entry.
proof fn lemma_kept_push(hs: Seq<(Seq<char>, Seq<char>)>, x: (Seq<char>, Seq<char>))
    ensures
        kept_headers(hs.push(x)) == if !is_hop_name(x.0) && !is_auth_name(x.0) {
            kept_headers(hs).push(x)
        } else {
            kept_headers(hs)
        },
{
    reveal(Seq::filter);
    assert(hs.push(x).drop_last() =~= hs);
}

/// One more entry carries the forwarding-address name exactly when it or an
/// earlier entry does.
proof fn lemma_has_forwarded_push(hs: Seq<(Seq<char>, Seq<char>)>, x: (Seq<char>, Seq<char>))
    ensures
        has_forwarded(hs.push(x)) == (has_forwarded(hs) || is_forwarded_name(x.0)),
{
    if has_forwarded(hs) {
        let i = choose|i: int| 0 <= i < hs.len() && is_forwarded_name(#[trigger] hs[i].0);
        assert(hs.push(x)[i] == hs[i]);
    }
    if is_forwarded_name(x.0) {
        assert(hs.push(x)[hs.len() as int] == x);
    }
    if has_forwarded(hs.push(x)) && !is_forwarded_name(x.0) {
        let i = choose|i: int| 0 <= i < hs.push(x).len() && is_forwarded_name(
            #[trigger] hs.push(x)[i].0,
        );
        assert(i < hs.len());
        assert(hs[i] == hs.push(x)[i]);
    }
}

/// Pushing a header onto a list pushes its view onto the list of views.
proof fn lemma_views_push(hs: Seq<Header>, h: Header)
    ensures
        views_of(hs.push(h)) == views_of(hs).push(h@),
{
    assert(views_of(hs.push(h)) =~= views_of(hs).push(h@));
}

/// Returns a new header list with every hop-by-hop entry removed, preserving
/// the order and multiplicity of the remaining entries.
pub fn remove_hop_headers(headers: &Vec<Header>) -> (r: Vec<Header>)
    ensures
        views_of(r@) == strip_hop(views_of(headers@)),
{
    let mut out: Vec<Header> = Vec::new();
    let n = headers.len();
    let mut i: usize = 0;
    proof {
        reveal(Seq::filter);
        assert(views_of(headers@.take(0)) =~= Seq::<(Seq<char>, Seq<char>)>::empty());
        assert(views_of(out@) =~= Seq::<(Seq<char>, Seq<char>)>::empty());
    }
    while i < n
        invariant
            n == headers@.len(),
            i <= n,
            views_of(out@) == strip_hop(views_of(headers@.take(i as int))),
        decreases n - i,
    {
        let h = &headers[i];
        proof {
            assert(views_of(headers@.take(i as int + 1)) =~= views_of(headers@.take(i as int)).push(
                headers@[i as int]@,
            ));
            lemma_strip_hop_push(views_of(headers@.take(i as int)), headers@[i as int]@);
        }
        if !is_hop_header(h.name.as_str()) {
            proof {
                lemma_views_push(out@, headers@[i as int]);
            }
            out.push(h.clone());
        }
        i = i + 1;
    }
    proof {
        assert(headers@.take(n as int) =~= headers@);
    }
    out
}

/// An upstream or client response as the core sees it: the status code and
/// the headers. The body is never materialized here; the transport layer
/// streams it through unchanged, and a response produced by the core itself
/// always has an empty body.
pub struct Response {
    pub status: u16,
    pub headers: Vec<Header>,
}

/// Sanitizes an upstream response before it is relayed to the client: strips
/// the hop-by-hop headers and passes the status through unchanged.
pub fn response(resp: Response) -> (r: Response)
    ensures
        r.status == resp.status,
        views_of(r.headers@) == strip_hop(views_of(resp.headers@)),
{
    let headers = remove_hop_headers(&resp.headers);
    Response { status: resp.status, headers }
}

/// The outbound upstream request built by the transformer: a GET with this
/// target and these headers, and an empty body.
pub struct OutboundRequest {
    pub uri: String,
    pub headers: Vec<Header>,
}

/// Why an outbound request could not be built.
#[derive(Debug)]
pub enum RequestBuildError {
    /// The computed upstream target is not a structurally valid URI.
    InvalidUri,
    /// A header value to be injected holds a byte illegal in a header value.
    InvalidHeaderValue,
}

/// Builds the outbound upstream request for a matched route: the collection
/// target from the upstream base, the inbound headers minus hop-by-hop
/// entries, `Authorization` overwritten to `Basic {credential}`, and the
/// caller's address as the forwarding header only if the inbound request
/// carried none. The caller has already verified the method is GET; the body
/// of the outbound request is empty.
pub fn request(
    headers: &Vec<Header>,
    client_addr: &String,
    calendar: &Calendar,
    base_url: &BaseUri,
    credential: &String,
) -> (r: Result<OutboundRequest, RequestBuildError>)
    ensures
        r is Ok <==> {
            &&& valid_uri(collection_uri_spec(*base_url, calendar.collection_id@))
            &&& valid_header_text(basic_auth_value(credential@))
            &&& (has_forwarded(views_of(headers@)) || valid_header_text(client_addr@))
        },
        r is Ok ==> (r->Ok_0).uri@ == collection_uri_spec(*base_url, calendar.collection_id@),
        r is Ok ==> views_of((r->Ok_0).headers@) == outbound_headers(
            views_of(headers@),
            client_addr@,
            credential@,
        ),
        r is Err ==> ((r->Err_0 is InvalidUri) <==> !valid_uri(
            collection_uri_spec(*base_url, calendar.collection_id@),
        )),
{
    let uri = calendar.collection_uri(base_url);
    if !uri_ok(uri.as_str()) {
        return Err(RequestBuildError::InvalidUri);
    }
    let mut auth = String::from_str("Basic ");
    auth.append(credential.as_str());
    if !header_value_ok(auth.as_str()) {
        return Err(RequestBuildError::InvalidHeaderValue);
    }
    let mut out: Vec<Header> = Vec::new();
    let mut found_fwd = false;
    let n = headers.len();
    let mut i: usize = 0;
    proof {
        reveal(Seq::filter);
        assert(views_of(headers@.take(0)) =~= Seq::<(Seq<char>, Seq<char>)>::empty());
        assert(views_of(out@) =~= Seq::<(Seq<char>, Seq<char>)>::empty());
    }
    while i < n
        invariant
            n == headers@.len(),
            i <= n,
            views_of(out@) == kept_headers(views_of(headers@.take(i as int))),
            found_fwd == has_forwarded(views_of(headers@.take(i as int))),
        decreases n - i,
    {
        let h = &headers[i];
        let name = h.name.as_str();
        proof {
            assert(views_of(headers@.take(i as int + 1)) =~= views_of(headers@.take(i as int)).push(
                headers@[i as int]@,
            ));
            lemma_kept_push(views_of(headers@.take(i as int)), headers@[i as int]@);
            lemma_has_forwarded_push(views_of(headers@.take(i as int)), headers@[i as int]@);
        }
        if !is_hop_header(name) && !str_eq_ignore_ascii_case(name, "Authorization") {
            proof {
                lemma_views_push(out@, headers@[i as int]);
            }
            out.push(h.clone());
        }
        if str_eq_ignore_ascii_case(name, "X-Forwarded-For") {
            found_fwd = true;
        }
        i = i + 1;
    }
    proof {
        assert(headers@.take(n as int) =~= headers@);
    }
    if !found_fwd && !header_value_ok(client_addr.as_str()) {
        return Err(RequestBuildError::InvalidHeaderValue);
    }
    out.push(Header { name: String::from_str("Authorization"), value: auth });
    proof {
        assert(views_of(out@) =~= kept_headers(views_of(headers@)).push(
            ("Authorization"@, basic_auth_value(credential@)),
        ));
    }
    if !found_fwd {
        out.push(Header { name: String::from_str("X-Forwarded-For"), value: client_addr.clone() });
        proof {
            assert(views_of(out@) =~= outbound_headers(
                views_of(headers@),
                client_addr@,
                credential@,
            ));
        }
    }
    Ok(OutboundRequest { uri, headers: out })
}

/// What the pipeline decided for one inbound request before any upstream
/// traffic happens.
pub enum Plan {
    /// Answer the client directly with this status and these headers and an
    /// empty body; no outbound call is attempted.
    Respond(Response),
    /// Dispatch this outbound request to the upstream server.
    Forward(OutboundRequest),
}

/// The pre-dispatch pipeline for one inbound request: reject a non-GET
/// method with 405, an unmatched path with 404, and a request that cannot be
/// built with 500 — each with an empty body and no upstream call — and
/// otherwise forward the built outbound request.
pub fn plan_request(
    config: &Config,
    method: &str,
    path: &str,
    headers: &Vec<Header>,
    client_addr: &String,
) -> (r: Plan)
    requires
        all_users_known(*config),
    ensures
        method@ != "GET"@ ==> r is Respond && (r->Respond_0).status == 405 && (
        r->Respond_0).headers@.len() == 0,
        method@ == "GET"@ && first_match(config.calendars@, path@) is None ==> r is Respond && (
        r->Respond_0).status == 404 && (r->Respond_0).headers@.len() == 0,
        method@ == "GET"@ && first_match(config.calendars@, path@) is Some ==> ({
            let cal = first_match(config.calendars@, path@)->0;
            let cred = lookup_cred(config.credentials@, cal.upstream_user@)->0;
            let target = collection_uri_spec(config.server.upstream_base_url, cal.collection_id@);
            let buildable = valid_uri(target) && valid_header_text(basic_auth_value(cred)) && (
            has_forwarded(views_of(headers@)) || valid_header_text(client_addr@));
            if buildable {
                &&& r is Forward
                &&& (r->Forward_0).uri@ == target
                &&& views_of((r->Forward_0).headers@) == outbound_headers(
                    views_of(headers@),
                    client_addr@,
                    cred,
                )
            } else {
                &&& r is Respond
                &&& (r->Respond_0).status == 500
                &&& (r->Respond_0).headers@.len() == 0
            }
        }),
{
    if !str_eq(method, "GET") {
        return Plan::Respond(Response { status: 405, headers: Vec::new() });
    }
    match config.match_request(path) {
        None => Plan::Respond(Response { status: 404, headers: Vec::new() }),
        Some((cal, cred)) => {
            match request(headers, client_addr, &cal, &config.server.upstream_base_url, &cred) {
                Ok(outbound) => Plan::Forward(outbound),
                Err(_) => Plan::Respond(Response { status: 500, headers: Vec::new() }),
            }
        },
    }
}

/// The post-dispatch pipeline step: a transport failure becomes a 500 with
/// an empty body, and a delivered upstream response is sanitized and relayed
/// with its status unchanged. Each request is handled in isolation: the
/// outcome is a function of this call's argument alone.
pub fn relay_response(outcome: Option<Response>) -> (r: Response)
    ensures
        outcome is None ==> r.status == 500 && r.headers@.len() == 0,
        outcome is Some ==> r.status == (outcome->0).status && views_of(r.headers@) == strip_hop(
            views_of((outcome->0).headers@),
        ),
{
    match outcome {
        Some(resp) => response(resp),
        None => Response { status: 500, headers: Vec::new() },
    }
}

/// Every entry that survives the hop-by-hop filter is not hop-by-hop.
proof fn lemma_strip_hop_clean(hs: Seq<(Seq<char>, Seq<char>)>)
    ensures
        forall|i: int|
            0 <= i < strip_hop(hs).len() ==> !is_hop_name(#[trigger] strip_hop(hs)[i].0),
    decreases hs.len(),
{
    reveal(Seq::filter);
    if hs.len() == 0 {
    } else {
        lemma_strip_hop_clean(hs.drop_last());
        if !is_hop_name(hs.last().0) {
            assert(strip_hop(hs) == strip_hop(hs.drop_last()).push(hs.last()));
            assert forall|i: int|
                0 <= i < strip_hop(hs).len() implies !is_hop_name(
                #[trigger] strip_hop(hs)[i].0,
            ) by {
                if i < strip_hop(hs).len() - 1 {
                    assert(strip_hop(hs)[i] == strip_hop(hs.drop_last())[i]);
                }
            }
        } else {
            assert(strip_hop(hs) == strip_hop(hs.drop_last()));
        }
    }
}

/// The hop-by-hop filter leaves a list without hop-by-hop entries unchanged.
proof fn lemma_strip_hop_noop(hs: Seq<(Seq<char>, Seq<char>)>)
    requires
        forall|i: int| 0 <= i < hs.len() ==> !is_hop_name(#[trigger] hs[i].0),
    ensures
        strip_hop(hs) == hs,
    decreases hs.len(),
{
    reveal(Seq::filter);
    if hs.len() == 0 {
        assert(strip_hop(hs) =~= hs);
    } else {
        assert(forall|i: int|
            0 <= i < hs.drop_last().len() ==> !is_hop_name(#[trigger] hs.drop_last()[i].0));
        lemma_strip_hop_noop(hs.drop_last());
        assert(!is_hop_name(hs.last().0));
        assert(strip_hop(hs) =~= hs);
    }
}

/// The hop-by-hop filter is idempotent: applying it twice yields the same
/// header list as applying it once.
pub proof fn lemma_strip_hop_idempotent(hs: Seq<(Seq<char>, Seq<char>)>)
    ensures
        strip_hop(strip_hop(hs)) == strip_hop(hs),
{
    lemma_strip_hop_clean(hs);
    lemma_strip_hop_noop(strip_hop(hs));
}

/// The entries of a header list carrying the forwarding-address name, in
/// order.
pub open spec fn forwarded_entries(hs: Seq<(Seq<char>, Seq<char>)>) -> Seq<
    (Seq<char>, Seq<char>),
> {
    hs.filter(|h: (Seq<char>, Seq<char>)| is_forwarded_name(h.0))
}

/// One more entry joins the forwarding-address entries exactly when it
/// carries that name.
proof fn lemma_forwarded_push(hs: Seq<(Seq<char>, Seq<char>)>, x: (Seq<char>, Seq<char>))
    ensures
        forwarded_entries(hs.push(x)) == if is_forwarded_name(x.0) {
            forwarded_entries(hs).push(x)
        } else {
            forwarded_entries(hs)
        },
{
    reveal(Seq::filter);
    assert(hs.push(x).drop_last() =~= hs);
}

/// The forwarding-address name is neither hop-by-hop nor `Authorization`:
/// the canonical names all differ in length.
proof fn lemma_forwarded_name_distinct(n: Seq<char>)
    ensures
        is_forwarded_name(n) ==> !is_hop_name(n) && !is_auth_name(n),
{
    if is_forwarded_name(n) {
        reveal_strlit("X-Forwarded-For");
        reveal_strlit("Connection");
        reveal_strlit("Keep-Alive");
        reveal_strlit("Proxy-Authentication");
        reveal_strlit("Proxy-Authorization");
        reveal_strlit("TE");
        reveal_strlit("Trailers");
        reveal_strlit("Transfer-Encoding");
        reveal_strlit("Upgrade");
        reveal_strlit("Authorization");
    }
}

/// Removing hop-by-hop and `Authorization` entries does not touch the
/// forwarding-address entries.
proof fn lemma_forwarded_of_kept(hs: Seq<(Seq<char>, Seq<char>)>)
    ensures
        forwarded_entries(kept_headers(hs)) == forwarded_entries(hs),
    decreases hs.len(),
{
    reveal(Seq::filter);
    if hs.len() == 0 {
        assert(forwarded_entries(kept_headers(hs)) =~= forwarded_entries(hs));
    } else {
        let dl = hs.drop_last();
        let x = hs.last();
        lemma_forwarded_of_kept(dl);
        lemma_forwarded_name_distinct(x.0);
        if !is_hop_name(x.0) && !is_auth_name(x.0) {
            assert(kept_headers(hs) == kept_headers(dl).push(x));
            lemma_forwarded_push(kept_headers(dl), x);
        } else {
            assert(!is_forwarded_name(x.0));
            assert(kept_headers(hs) == kept_headers(dl));
        }
    }
}

/// A list with no entry carrying the forwarding-address name has no
/// forwarding-address entries.
proof fn lemma_forwarded_none(hs: Seq<(Seq<char>, Seq<char>)>)
    requires
        !has_forwarded(hs),
    ensures
        forwarded_entries(hs) == Seq::<(Seq<char>, Seq<char>)>::empty(),
    decreases hs.len(),
{
    reveal(Seq::filter);
    if hs.len() == 0 {
        assert(forwarded_entries(hs) =~= Seq::<(Seq<char>, Seq<char>)>::empty());
    } else {
        let dl = hs.drop_last();
        assert(!has_forwarded(dl)) by {
            if has_forwarded(dl) {
                let i = choose|i: int| 0 <= i < dl.len() && is_forwarded_name(#[trigger] dl[i].0);
                assert(hs[i] == dl[i]);
            }
        }
        lemma_forwarded_none(dl);
        assert(!is_forwarded_name(hs.last().0)) by {
            assert(hs[hs.len() - 1] == hs.last());
        }
    }
}

/// The forwarding policy of the transformer. If the inbound request carries
/// no forwarding-address header, the outbound header list ends with exactly
/// one, holding the caller's address. If it carries one, the outbound list's
/// forwarding-address entries are those of the inbound request, unchanged —
/// the caller's address is not written anywhere.
pub proof fn lemma_forwarding_policy(
    inbound: Seq<(Seq<char>, Seq<char>)>,
    client: Seq<char>,
    cred: Seq<char>,
)
    ensures
        !has_forwarded(inbound) ==> ({
            let out = outbound_headers(inbound, client, cred);
            &&& out.len() > 0
            &&& out.last() == ("X-Forwarded-For"@, client)
            &&& forwarded_entries(out) == seq![("X-Forwarded-For"@, client)]
        }),
        has_forwarded(inbound) ==> forwarded_entries(outbound_headers(inbound, client, cred))
            == forwarded_entries(inbound),
{
    let auth_entry = ("Authorization"@, basic_auth_value(cred));
    let base = kept_headers(inbound).push(auth_entry);
    lemma_forwarded_of_kept(inbound);
    lemma_forwarded_push(kept_headers(inbound), auth_entry);
    assert(!is_forwarded_name(auth_entry.0)) by {
        reveal_strlit("Authorization");
        reveal_strlit("X-Forwarded-For");
    }
    if !has_forwarded(inbound) {
        let fwd_entry = ("X-Forwarded-For"@, client);
        assert(is_forwarded_name(fwd_entry.0));
        lemma_forwarded_none(inbound);
        lemma_forwarded_push(base, fwd_entry);
        assert(forwarded_entries(base.push(fwd_entry)) =~= seq![fwd_entry]);
    }
}

} // verus!

