//! Requests to the speech recognition service.

use crate::clock;
use crate::config;
use crate::text;
use vstd::prelude::*;

verus! {

/// A header of a request.
pub struct Header {
    pub name: String,
    pub value: String,
}

/// The name and the value of a header.
pub ghost struct HeaderView {
    pub name: Seq<char>,
    pub value: Seq<char>,
}

impl Header {
    /// The name and the value.
    pub open spec fn view(&self) -> HeaderView {
        HeaderView { name: self.name@, value: self.value@ }
    }
}

/// The views of headers.
pub open spec fn header_views(headers: Seq<Header>) -> Seq<HeaderView> {
    headers.map_values(|h: Header| h@)
}

/// A header.
fn header(name: &str, value: &str) -> (r: Header)
    ensures
        r@ == (HeaderView { name: name@, value: value@ }),
{
    Header { name: name.to_owned(), value: value.to_owned() }
}

/// A request that is to be signed.
pub struct Request {
    pub url: String,
    pub access_key_id: String,
    pub secret_access_key: String,
    pub payload_hash: String,
    /// The headers that the signature covers.
    pub signed: Vec<Header>,
    /// The host.
    pub host: String,
    /// The time of the request.
    pub now: String,
}

/// The host of the service.
pub open spec fn host_of() -> Seq<char> {
    "runtime.lex.us-east-1.amazonaws.com"@
}

/// Where a user's speech is sent to. The user's number has at least five digits.
pub open spec fn url_of(user_id: u32) -> Seq<char> {
    "https://"@ + host_of() + ("/bot/Lyric/alias/Lyric/user/"@ + text::padded_decimal_of(
        user_id as nat,
        5,
    ) + "/content"@)
}

/// The headers that the signature covers.
pub open spec fn signed_of(now: Seq<char>) -> Seq<HeaderView> {
    seq![
        HeaderView { name: "host"@, value: host_of() },
        HeaderView { name: "content-type"@, value: "audio/l16; rate=16000; channels=1"@ },
        HeaderView { name: "x-amz-content-sha256"@, value: "UNSIGNED-PAYLOAD"@ },
        HeaderView { name: "x-amz-date"@, value: now },
    ]
}

/// The headers of the request `r`, once it is signed.
pub open spec fn headers_of(r: Request, authorization: Seq<char>) -> Seq<HeaderView> {
    seq![
        HeaderView { name: "content-type"@, value: "audio/l16; rate=16000; channels=1"@ },
        HeaderView { name: "host"@, value: r.host@ },
        HeaderView { name: "authorization"@, value: authorization },
        HeaderView { name: "accept"@, value: "audio/pcm"@ },
        HeaderView { name: "x-amz-date"@, value: r.now@ },
        HeaderView { name: "x-amz-content-sha256"@, value: r.payload_hash@ },
    ]
}

/// Whether `r` is the request for the user `user_id` at the time `now`.
pub open spec fn is_request(
    r: Request,
    config: config::Config,
    user_id: u32,
    now: Seq<char>,
) -> bool {
    &&& r.url@ == url_of(user_id)
    &&& r.access_key_id@ == config.aws.access_key_id@
    &&& r.secret_access_key@ == config.aws.secret_access_key@
    &&& r.payload_hash@ == "UNSIGNED-PAYLOAD"@
    &&& header_views(r.signed@) == signed_of(now)
    &&& r.host@ == host_of()
    &&& r.now@ == now
}

/// The request for the user `user_id` at the time `now`, such as `20170901T120000Z`.
pub fn request_at(config: &config::Config, user_id: u32, now: &str) -> (r: Request)
    ensures
        is_request(r, *config, user_id, now@),
{
    let mut post = "/bot/Lyric/alias/Lyric/user/".to_owned();
    post.append(text::padded_decimal(user_id as u64, 5).as_str());
    post.append("/content");
    let host = "runtime.lex.us-east-1.amazonaws.com".to_owned();
    let mut url = "https://".to_owned();
    url.append(host.as_str());
    url.append(post.as_str());
    let payload_hash = "UNSIGNED-PAYLOAD".to_owned();
    let mut signed: Vec<Header> = Vec::new();
    signed.push(header("host", host.as_str()));
    signed.push(header("content-type", "audio/l16; rate=16000; channels=1"));
    signed.push(header("x-amz-content-sha256", payload_hash.as_str()));
    signed.push(header("x-amz-date", now));
    assert(header_views(signed@) =~= signed_of(now@));
    Request {
        url,
        access_key_id: config.aws.access_key_id.as_str().to_owned(),
        secret_access_key: config.aws.secret_access_key.as_str().to_owned(),
        payload_hash,
        signed,
        host,
        now: now.to_owned(),
    }
}

/// The request for the user `user_id` at this moment.
pub fn request(config: &config::Config, user_id: u32) -> (r: Request)
    ensures
        is_request(r, *config, user_id, r.now@),
        clock::fits(clock::compact(), r.now@),
{
    let now = clock::compact_now();
    request_at(config, user_id, now.as_str())
}

impl Request {
    /// How the request is made.
    pub fn method(&self) -> (r: &'static str)
        ensures
            r@ == "POST"@,
    {
        "POST"
    }

    /// The service that the signature names.
    pub fn service(&self) -> (r: &'static str)
        ensures
            r@ == "lex"@,
    {
        "lex"
    }

    /// The region that the signature names.
    pub fn region(&self) -> (r: &'static str)
        ensures
            r@ == "us-east-1"@,
    {
        "us-east-1"
    }

    /// The headers of the request, once it is signed.
    pub fn headers(&self, authorization: &str) -> (r: Vec<Header>)
        ensures
            header_views(r@) == headers_of(*self, authorization@),
    {
        let mut headers: Vec<Header> = Vec::new();
        headers.push(header("content-type", "audio/l16; rate=16000; channels=1"));
        headers.push(header("host", self.host.as_str()));
        headers.push(header("authorization", authorization));
        headers.push(header("accept", "audio/pcm"));
        headers.push(header("x-amz-date", self.now.as_str()));
        headers.push(header("x-amz-content-sha256", self.payload_hash.as_str()));
        assert(header_views(headers@) =~= headers_of(*self, authorization@));
        headers
    }
}

/// Every header that the signature covers goes out with the value that was signed.
pub proof fn signed_headers_are_sent(
    r: Request,
    config: config::Config,
    user_id: u32,
    now: Seq<char>,
    authorization: Seq<char>,
    i: int,
)
    requires
        is_request(r, config, user_id, now),
        0 <= i < r.signed@.len(),
    ensures
        headers_of(r, authorization).contains(r.signed@[i]@),
{
    let sent = headers_of(r, authorization);
    let signed = header_views(r.signed@);
    assert(signed.len() == 4);
    assert(signed[i] == r.signed@[i]@);
    assert(sent[1] == signed[0]);
    assert(sent[0] == signed[1]);
    assert(sent[5] == signed[2]);
    assert(sent[4] == signed[3]);
}

/// A request goes to the address of its user, whose number has at least five digits, is signed with
/// the account of the settings, and carries its time.
pub proof fn requests_are_made(
    config: &config::Config,
    user_id: u32,
    now: &str,
    r: Request,
    digits: String,
)
    requires
        call_ensures(request_at, (config, user_id, now), r),
        call_ensures(text::padded_decimal, (user_id as u64, 5usize), digits),
    ensures
        r.url@ == "https://runtime.lex.us-east-1.amazonaws.com/bot/Lyric/alias/Lyric/user/"@
            + digits@ + "/content"@,
        r.access_key_id@ == config.aws.access_key_id@,
        r.secret_access_key@ == config.aws.secret_access_key@,
        r.payload_hash@ == "UNSIGNED-PAYLOAD"@,
        r.host@ == "runtime.lex.us-east-1.amazonaws.com"@,
        r.now@ == now@,
        r.signed@.len() == 4,
        r.signed@[0].name@ == "host"@ && r.signed@[0].value@
            == "runtime.lex.us-east-1.amazonaws.com"@,
        r.signed@[1].name@ == "content-type"@ && r.signed@[1].value@
            == "audio/l16; rate=16000; channels=1"@,
        r.signed@[2].name@ == "x-amz-content-sha256"@ && r.signed@[2].value@ == "UNSIGNED-PAYLOAD"@,
        r.signed@[3].name@ == "x-amz-date"@ && r.signed@[3].value@ == now@,
{
    reveal_strlit("https://runtime.lex.us-east-1.amazonaws.com/bot/Lyric/alias/Lyric/user/");
    reveal_strlit("https://");
    reveal_strlit("runtime.lex.us-east-1.amazonaws.com");
    reveal_strlit("/bot/Lyric/alias/Lyric/user/");
    assert("https://"@ + "runtime.lex.us-east-1.amazonaws.com"@ + "/bot/Lyric/alias/Lyric/user/"@
        =~= "https://runtime.lex.us-east-1.amazonaws.com/bot/Lyric/alias/Lyric/user/"@);
    assert(r.url@ =~= "https://runtime.lex.us-east-1.amazonaws.com/bot/Lyric/alias/Lyric/user/"@
        + digits@ + "/content"@);
    let signed = header_views(r.signed@);
    assert(signed.len() == r.signed@.len());
    assert(signed[0] == r.signed@[0]@);
    assert(signed[1] == r.signed@[1]@);
    assert(signed[2] == r.signed@[2]@);
    assert(signed[3] == r.signed@[3]@);
}

/// What goes out with a request: its own host, time and hash, the signature, and what it is made
/// of and answered with.
pub proof fn headers_are_sent(request: &Request, authorization: &str, r: Vec<Header>)
    requires
        call_ensures(Request::headers, (request, authorization), r),
    ensures
        r@.len() == 6,
        r@[0].name@ == "content-type"@ && r@[0].value@ == "audio/l16; rate=16000; channels=1"@,
        r@[1].name@ == "host"@ && r@[1].value@ == request.host@,
        r@[2].name@ == "authorization"@ && r@[2].value@ == authorization@,
        r@[3].name@ == "accept"@ && r@[3].value@ == "audio/pcm"@,
        r@[4].name@ == "x-amz-date"@ && r@[4].value@ == request.now@,
        r@[5].name@ == "x-amz-content-sha256"@ && r@[5].value@ == request.payload_hash@,
{
    let views = header_views(r@);
    assert(views.len() == r@.len());
    assert(views[0] == r@[0]@);
    assert(views[1] == r@[1]@);
    assert(views[2] == r@[2]@);
    assert(views[3] == r@[3]@);
    assert(views[4] == r@[4]@);
    assert(views[5] == r@[5]@);
}

} // verus!
