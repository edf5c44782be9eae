//! Media locations and files: `mxc://` URLs, the direct download route for
//! media held by other servers, how a media source is stored in the queue,
//! and the names and checks applied to downloaded files.

use vstd::prelude::*;
use crate::domain::MediaCategory;
use crate::error::ArchiveError;
use crate::identity::{origin_view, url_host_of, url_origin, url_origin_of, UrlOrigin};
use crate::text::{
    ascii_lower_seq, before_first_char, before_first_seq, push_char, push_str, replace_char,
    replace_char_seq, split_once_char, split_once_seq, str_eq, strip_prefix, strip_prefix_seq,
    to_ascii_lowercase, trim_start_char, trim_start_char_seq,
};
use sha2::Digest;

verus! {

/// The server name and media ID of an `mxc://server/media` URL; both must be
/// non-empty, and the media ID is everything after the first `/`.
pub open spec fn mxc_parts(s: Seq<char>) -> Option<(Seq<char>, Seq<char>)> {
    match strip_prefix_seq(s, "mxc://"@) {
        Some(rest) => match split_once_seq(rest, '/') {
            Some((server, media)) => if server.len() > 0 && media.len() > 0 {
                Some((server, media))
            } else {
                None
            },
            None => None,
        },
        None => None,
    }
}

/// Splits an `mxc://` URL into its server name and media ID.
pub fn parse_mxc_url(value: &str) -> (r: Option<(String, String)>)
    ensures
        match r {
            None => mxc_parts(value@) is None,
            Some((server, media)) => mxc_parts(value@) == Some((server@, media@)),
        },
{
    let rest = match strip_prefix(value, "mxc://") {
        Some(rest) => rest,
        None => return None,
    };
    match split_once_char(rest.as_str(), '/') {
        Some((server, media)) => {
            if server.as_str().unicode_len() == 0 || media.as_str().unicode_len() == 0 {
                None
            } else {
                Some((server, media))
            }
        },
        None => None,
    }
}

/// How a host is compared: ASCII letters lowered, and no host at all is the
/// empty text.
pub open spec fn host_key(host: Option<Seq<char>>) -> Seq<char> {
    match host {
        Some(h) => ascii_lower_seq(h),
        None => Seq::empty(),
    }
}

/// The host part of a server name (before any `:port`), lowered.
pub open spec fn server_host_key(server: Seq<char>) -> Seq<char> {
    ascii_lower_seq(before_first_seq(server, ':'))
}

/// Media on `server` is remote when its host is known and differs from the
/// homeserver's host.
pub open spec fn remote_server(server: Seq<char>, homeserver_host: Option<Seq<char>>) -> bool {
    server_host_key(server).len() > 0 && server_host_key(server) != host_key(homeserver_host)
}

pub open spec fn remote_media_with_host(mxc: Seq<char>, homeserver_host: Option<Seq<char>>) -> bool {
    match mxc_parts(mxc) {
        Some((server, _)) => remote_server(server, homeserver_host),
        None => false,
    }
}

/// Whether two server hosts are the same once lowered.
pub fn same_server_host(server: &str, homeserver_host: Option<&str>) -> (r: bool)
    ensures
        r == (server_host_key(server@) == host_key(homeserver_host.deep_view())),
{
    let host = before_first_char(server, ':');
    let key = to_ascii_lowercase(host.as_str());
    let hk = match homeserver_host {
        Some(h) => to_ascii_lowercase(h),
        None => String::new(),
    };
    proof {
        assert(hk@ =~= host_key(homeserver_host.deep_view()));
    }
    str_eq(key.as_str(), hk.as_str())
}

/// Whether the media of `mxc_url` lies on another server than the homeserver
/// whose host is `homeserver_host`.
pub fn is_remote_media_for_host(mxc_url: &str, homeserver_host: Option<&str>) -> (r: bool)
    ensures
        r == remote_media_with_host(mxc_url@, homeserver_host.deep_view()),
{
    match parse_mxc_url(mxc_url) {
        Some((server, _)) => {
            let host = before_first_char(server.as_str(), ':');
            host.as_str().unicode_len() > 0 && !same_server_host(server.as_str(), homeserver_host)
        },
        None => false,
    }
}

/// Whether the media of `mxc_url` lies on another server than the homeserver
/// at `homeserver_url`.
pub fn is_remote_media(mxc_url: &str, homeserver_url: &str) -> (r: bool)
    ensures
        r == remote_media_with_host(mxc_url@, url_host_of(homeserver_url@)),
{
    match url_origin(homeserver_url) {
        Some(o) => match o.host {
            Some(h) => is_remote_media_for_host(mxc_url, Some(h.as_str())),
            None => is_remote_media_for_host(mxc_url, None),
        },
        None => is_remote_media_for_host(mxc_url, None),
    }
}

/// Two URLs share an origin: scheme, host and port (known defaults filled in).
pub fn same_origin(left: &UrlOrigin, right: &UrlOrigin) -> (r: bool)
    ensures
        r == (origin_view(*left) == origin_view(*right)),
{
    let scheme = left.scheme == right.scheme;
    let host = match (&left.host, &right.host) {
        (Some(a), Some(b)) => *a == *b,
        (None, None) => true,
        _ => false,
    };
    let port = match (left.port, right.port) {
        (Some(a), Some(b)) => a == b,
        (None, None) => true,
        _ => false,
    };
    scheme && host && port
}

/// The UTF-8 encoding of one character.
pub open spec fn utf8_char(c: char) -> Seq<u8> {
    let n = c as int;
    if n < 0x80 {
        seq![n as u8]
    } else if n < 0x800 {
        seq![(0xC0 + n / 64) as u8, (0x80 + n % 64) as u8]
    } else if n < 0x10000 {
        seq![(0xE0 + n / 4096) as u8, (0x80 + (n / 64) % 64) as u8, (0x80 + n % 64) as u8]
    } else {
        seq![
            (0xF0 + n / 262144) as u8,
            (0x80 + (n / 4096) % 64) as u8,
            (0x80 + (n / 64) % 64) as u8,
            (0x80 + n % 64) as u8,
        ]
    }
}

/// The UTF-8 encoding of a text.
pub open spec fn utf8_of(s: Seq<char>) -> Seq<u8>
    decreases s.len(),
{
    if s.len() == 0 {
        Seq::empty()
    } else {
        utf8_of(s.drop_last()) + utf8_char(s.last())
    }
}

/// Bytes that percent-encoding leaves alone: ASCII letters, digits and `-._~`.
pub open spec fn url_unreserved(b: u8) -> bool {
    ||| (48 <= b && b <= 57)
    ||| (65 <= b && b <= 90)
    ||| (97 <= b && b <= 122)
    ||| b == 45
    ||| b == 46
    ||| b == 95
    ||| b == 126
}

/// An upper-case hexadecimal digit.
pub open spec fn hex_upper(d: int) -> char {
    if d < 10 {
        (48 + d) as char
    } else {
        (55 + d) as char
    }
}

pub open spec fn percent_byte(b: u8) -> Seq<char> {
    if url_unreserved(b) {
        seq![b as char]
    } else {
        seq!['%', hex_upper(b as int / 16), hex_upper(b as int % 16)]
    }
}

pub open spec fn percent_encode_bytes(bytes: Seq<u8>) -> Seq<char>
    decreases bytes.len(),
{
    if bytes.len() == 0 {
        Seq::empty()
    } else {
        percent_encode_bytes(bytes.drop_last()) + percent_byte(bytes.last())
    }
}

/// A text percent-encoded byte by byte over its UTF-8 form.
pub open spec fn url_encoded(s: Seq<char>) -> Seq<char> {
    percent_encode_bytes(utf8_of(s))
}

/// Percent-encodes `text` with `urlencoding::encode`, which, as its
/// documentation and source show, encodes every UTF-8 byte except ASCII
/// letters, digits and `-._~` as `%` and two upper-case hex digits.
#[verifier::external_body]
pub(crate) fn url_encode(text: &str) -> (r: String)
    ensures
        r@ == url_encoded(text@),
{
    urlencoding::encode(text).into_owned()
}

/// What `reqwest::Url::parse(base)` and then `join(input)` give: `None` when
/// either fails, else the joined URL's text and its scheme, host and port.
pub uninterp spec fn url_join_of(base: Seq<char>, input: Seq<char>) -> Option<
    (Seq<char>, (Seq<char>, Option<Seq<char>>, Option<u16>)),
>;

/// Parses `base` with `reqwest::Url::parse` and resolves `input` against it
/// with `Url::join`. The contract claims only that the result is a function
/// of the two texts.
#[verifier::external_body]
pub(crate) fn join_url(base: &str, input: &str) -> (r: Option<(String, UrlOrigin)>)
    ensures
        match r {
            None => url_join_of(base@, input@) is None,
            Some((text, o)) => url_join_of(base@, input@) == Some((text@, origin_view(o))),
        },
{
    let url = reqwest::Url::parse(base).ok()?.join(input).ok()?;
    let origin = UrlOrigin {
        scheme: url.scheme().to_owned(),
        host: url.host_str().map(|h| h.to_owned()),
        port: url.port_or_known_default(),
    };
    Some((url.as_str().to_owned(), origin))
}

/// What `reqwest::Url::parse(url)` and then appending `pairs` to its query
/// with `query_pairs_mut().extend_pairs` give: `None` when the parse fails,
/// else the URL's text.
pub uninterp spec fn url_with_query_of(url: Seq<char>, pairs: Seq<(Seq<char>, Seq<char>)>) -> Option<
    Seq<char>,
>;

/// Parses `url` with `reqwest::Url::parse` and appends `pairs`, form-encoded,
/// to its query. The contract claims only that the result is a function of
/// the URL text and the pairs.
#[verifier::external_body]
pub(crate) fn url_with_query(url: &str, pairs: &Vec<(String, String)>) -> (r: Option<String>)
    ensures
        match r {
            None => url_with_query_of(url@, pair_views(pairs@)) is None,
            Some(u) => url_with_query_of(url@, pair_views(pairs@)) == Some(u@),
        },
{
    let mut parsed = reqwest::Url::parse(url).ok()?;
    parsed.query_pairs_mut().extend_pairs(pairs.iter());
    Some(parsed.as_str().to_owned())
}

/// Text pairs by their views.
pub open spec fn pair_views(v: Seq<(String, String)>) -> Seq<(Seq<char>, Seq<char>)> {
    v.map_values(|p: (String, String)| (p.0@, p.1@))
}

/// The download endpoints tried, in order, for media on another server.
pub open spec fn download_path_prefix(i: int) -> Seq<char> {
    if i == 0 {
        "/_matrix/client/v1/media/download/"@
    } else if i == 1 {
        "/_matrix/media/v3/download/"@
    } else {
        "/_matrix/media/r0/download/"@
    }
}

/// The `i`-th endpoint path for a media item, server and ID percent-encoded.
pub open spec fn download_path(i: int, server: Seq<char>, media: Seq<char>) -> Seq<char> {
    download_path_prefix(i) + url_encoded(server) + seq!['/'] + url_encoded(media)
}

/// The endpoint paths for a media item, in the order they are tried.
pub fn remote_media_candidate_paths(server_name: &str, media_id: &str) -> (r: Vec<String>)
    ensures
        r@.len() == 3,
        forall|i: int| 0 <= i < 3 ==> #[trigger] r@[i]@ == download_path(i, server_name@, media_id@),
{
    let server = url_encode(server_name);
    let media = url_encode(media_id);
    let mut paths: Vec<String> = Vec::new();
    let mut i: usize = 0;
    while i < 3
        invariant
            i <= 3,
            server@ == url_encoded(server_name@),
            media@ == url_encoded(media_id@),
            paths@.len() == i,
            forall|j: int| 0 <= j < i ==> #[trigger] paths@[j]@ == download_path(j, server_name@, media_id@),
        decreases 3 - i,
    {
        let mut p = String::new();
        if i == 0 {
            push_str(&mut p, "/_matrix/client/v1/media/download/");
        } else if i == 1 {
            push_str(&mut p, "/_matrix/media/v3/download/");
        } else {
            push_str(&mut p, "/_matrix/media/r0/download/");
        }
        push_str(&mut p, server.as_str());
        push_char(&mut p, '/');
        push_str(&mut p, media.as_str());
        assert(p@ =~= download_path(i as int, server_name@, media_id@));
        paths.push(p);
        i = i + 1;
    }
    paths
}

/// One direct download attempt: the URL, and the access token when it may
/// be sent there.
#[derive(Clone, Debug)]
pub struct RemoteDownloadRequest {
    pub url: String,
    pub bearer_token: Option<String>,
}

pub open spec fn request_view(r: RemoteDownloadRequest) -> (Seq<char>, Option<Seq<char>>) {
    (r.url@, r.bearer_token.deep_view())
}

/// The request for a joined URL: the access token goes only to the
/// homeserver's own origin.
pub open spec fn request_for_join(
    joined: (Seq<char>, (Seq<char>, Option<Seq<char>>, Option<u16>)),
    base: (Seq<char>, Option<Seq<char>>, Option<u16>),
    token: Option<Seq<char>>,
) -> (Seq<char>, Option<Seq<char>>) {
    (joined.0, if token is Some && joined.1 == base { token } else { None })
}

/// Turns the result of joining `path` onto the homeserver URL into a request;
/// a failed join is an invalid URL.
pub fn download_request(
    joined: Option<(String, UrlOrigin)>,
    base: &UrlOrigin,
    path: &str,
    access_token: Option<&str>,
) -> (r: Result<RemoteDownloadRequest, ArchiveError>)
    ensures
        match joined {
            None => r matches Err(ArchiveError::InvalidUrl { url }) && url@ == path@,
            Some((text, o)) => r matches Ok(req) && request_view(req) == request_for_join(
                (text@, origin_view(o)),
                origin_view(*base),
                access_token.deep_view(),
            ),
        },
{
    match joined {
        None => Err(ArchiveError::InvalidUrl { url: path.to_owned() }),
        Some((text, o)) => {
            let bearer = match access_token {
                Some(t) => if same_origin(&o, base) {
                    Some(t.to_owned())
                } else {
                    None
                },
                None => None,
            };
            Ok(RemoteDownloadRequest { url: text, bearer_token: bearer })
        },
    }
}

/// The `i`-th planned request: the `i`-th endpoint joined onto the
/// homeserver URL, with the access token only for the homeserver's origin.
pub open spec fn planned_request(
    homeserver_url: Seq<char>,
    server: Seq<char>,
    media: Seq<char>,
    token: Option<Seq<char>>,
    i: int,
    req: RemoteDownloadRequest,
) -> bool {
    &&& url_join_of(homeserver_url, download_path(i, server, media)) is Some
    &&& request_view(req) == request_for_join(
        url_join_of(homeserver_url, download_path(i, server, media))->0,
        url_origin_of(homeserver_url)->0,
        token,
    )
}

/// The requests for downloading remote media directly from its own server
/// through the homeserver's media endpoints, one per endpoint in order.
pub open spec fn remote_plan_ok(
    homeserver_url: Seq<char>,
    server: Seq<char>,
    media: Seq<char>,
    token: Option<Seq<char>>,
    v: Seq<RemoteDownloadRequest>,
) -> bool {
    &&& v.len() == 3
    &&& forall|i: int|
        0 <= i < 3 ==> #[trigger] planned_request(homeserver_url, server, media, token, i, v[i])
}

/// Plans the direct download of media held by another server: nothing when
/// the URL is not an `mxc://` URL or names the homeserver's own host; an
/// error when the homeserver URL does not parse or an endpoint cannot be
/// joined onto it; else one request per endpoint, in order.
pub fn plan_remote_download(homeserver_url: &str, mxc_url: &str, access_token: Option<&str>) -> (r:
    Result<Option<Vec<RemoteDownloadRequest>>, ArchiveError>)
    ensures
        mxc_parts(mxc_url@) is None ==> r matches Ok(None),
        mxc_parts(mxc_url@) matches Some((server, media)) ==> {
            if server_host_key(server) == host_key(url_host_of(homeserver_url@)) {
                r matches Ok(None)
            } else if url_origin_of(homeserver_url@) is None {
                r matches Err(ArchiveError::InvalidUrl { url }) && url@ == homeserver_url@
            } else {
                match r {
                    Ok(Some(v)) => remote_plan_ok(
                        homeserver_url@,
                        server,
                        media,
                        access_token.deep_view(),
                        v@,
                    ),
                    Ok(None) => false,
                    Err(e) => exists|i: int|
                        0 <= i < 3 && url_join_of(homeserver_url@, download_path(i, server, media))
                            is None && (e matches ArchiveError::InvalidUrl { url } && url@
                            == #[trigger] download_path(i, server, media)),
                }
            }
        },
        (mxc_parts(mxc_url@) matches Some((server, media)) && server_host_key(server) != host_key(
            url_host_of(homeserver_url@),
        ) && url_origin_of(homeserver_url@) is Some && forall|i: int|
            0 <= i < 3 ==> url_join_of(homeserver_url@, #[trigger] download_path(i, server, media))
                is Some) ==> r matches Ok(Some(_)),
{
    let (server, media) = match parse_mxc_url(mxc_url) {
        Some(parts) => parts,
        None => return Ok(None),
    };
    let base = url_origin(homeserver_url);
    let same_host = match &base {
        Some(o) => match &o.host {
            Some(h) => same_server_host(server.as_str(), Some(h.as_str())),
            None => same_server_host(server.as_str(), None),
        },
        None => same_server_host(server.as_str(), None),
    };
    if same_host {
        return Ok(None);
    }
    let base = match base {
        Some(o) => o,
        None => return Err(ArchiveError::InvalidUrl { url: homeserver_url.to_owned() }),
    };
    let paths = remote_media_candidate_paths(server.as_str(), media.as_str());
    let mut requests: Vec<RemoteDownloadRequest> = Vec::new();
    let mut i: usize = 0;
    while i < 3
        invariant
            i <= 3,
            paths@.len() == 3,
            forall|j: int| 0 <= j < 3 ==> #[trigger] paths@[j]@ == download_path(j, server@, media@),
            url_origin_of(homeserver_url@) == Some(origin_view(base)),
            mxc_parts(mxc_url@) == Some((server@, media@)),
            server_host_key(server@) != host_key(url_host_of(homeserver_url@)),
            requests@.len() == i,
            forall|j: int|
                0 <= j < i ==> #[trigger] planned_request(
                    homeserver_url@,
                    server@,
                    media@,
                    access_token.deep_view(),
                    j,
                    requests@[j],
                ),
        decreases 3 - i,
    {
        let joined = join_url(homeserver_url, paths[i].as_str());
        let ghost joined_view = joined;
        proof {
            assert(paths@[i as int]@ == download_path(i as int, server@, media@));
        }
        let req = match download_request(joined, &base, paths[i].as_str(), access_token) {
            Ok(req) => req,
            Err(e) => return Err(e),
        };
        let ghost before = requests@;
        requests.push(req);
        proof {
            assert(requests@[i as int] == req);
            assert forall|j: int| 0 <= j < i implies requests@[j] == before[j] by {}
            assert(planned_request(
                homeserver_url@,
                server@,
                media@,
                access_token.deep_view(),
                i as int,
                requests@[i as int],
            ));
            assert forall|j: int| 0 <= j < i implies #[trigger] planned_request(
                homeserver_url@,
                server@,
                media@,
                access_token.deep_view(),
                j,
                requests@[j],
            ) by {
                assert(planned_request(
                    homeserver_url@,
                    server@,
                    media@,
                    access_token.deep_view(),
                    j,
                    before[j],
                ));
            }
        }
        i = i + 1;
    }
    Ok(Some(requests))
}

/// How a media source is kept in the queue: a plain `mxc://` URI as it is,
/// an encrypted file's JSON description behind the `encrypted:` prefix.
#[derive(Clone, Debug)]
pub enum StoredMediaSource {
    Plain(String),
    Encrypted(String),
}

/// A stored source as the variant (encrypted or not) and its text.
pub open spec fn source_view(s: StoredMediaSource) -> (bool, Seq<char>) {
    match s {
        StoredMediaSource::Plain(uri) => (false, uri@),
        StoredMediaSource::Encrypted(json) => (true, json@),
    }
}

pub open spec fn encoded_source(s: (bool, Seq<char>)) -> Seq<char> {
    if s.0 {
        "encrypted:"@ + s.1
    } else {
        s.1
    }
}

pub open spec fn decoded_source(text: Seq<char>) -> (bool, Seq<char>) {
    match strip_prefix_seq(text, "encrypted:"@) {
        Some(rest) => (true, rest),
        None => (false, text),
    }
}

/// The queue's text for a media source.
pub fn encode_media_source(source: &StoredMediaSource) -> (r: String)
    ensures
        r@ == encoded_source(source_view(*source)),
{
    match source {
        StoredMediaSource::Plain(uri) => uri.clone(),
        StoredMediaSource::Encrypted(json) => {
            let mut r = String::new();
            push_str(&mut r, "encrypted:");
            push_str(&mut r, json.as_str());
            r
        },
    }
}

/// The media source that a queue text stands for.
pub fn decode_media_source(value: &str) -> (r: StoredMediaSource)
    ensures
        source_view(r) == decoded_source(value@),
{
    match strip_prefix(value, "encrypted:") {
        Some(rest) => StoredMediaSource::Encrypted(rest),
        None => StoredMediaSource::Plain(value.to_owned()),
    }
}

/// Decoding gives back every text that was stored.
pub proof fn law_media_source_text_round_trip(text: Seq<char>)
    ensures
        encoded_source(decoded_source(text)) == text,
{
    if let Some(rest) = strip_prefix_seq(text, "encrypted:"@) {
        assert("encrypted:"@ + rest =~= text);
    }
}

/// Encoding and decoding give back the source, for every encrypted source
/// and every plain URI that does not itself start with `encrypted:`.
pub proof fn law_media_source_round_trip(source: (bool, Seq<char>))
    requires
        source.0 || strip_prefix_seq(source.1, "encrypted:"@) is None,
    ensures
        decoded_source(encoded_source(source)) == source,
{
    if source.0 {
        let t = "encrypted:"@ + source.1;
        assert(t.subrange(0, "encrypted:"@.len() as int) =~= "encrypted:"@);
        assert(t.subrange("encrypted:"@.len() as int, t.len() as int) =~= source.1);
    }
}

/// Whether a download first tries the media's own server directly: only for
/// plain sources that lie on another server than the homeserver.
pub fn tries_direct_download(source: &StoredMediaSource, homeserver_url: &str) -> (r: bool)
    ensures
        r == (!source_view(*source).0 && remote_media_with_host(
            source_view(*source).1,
            url_host_of(homeserver_url@),
        )),
{
    match source {
        StoredMediaSource::Plain(uri) => is_remote_media(uri.as_str(), homeserver_url),
        StoredMediaSource::Encrypted(_) => false,
    }
}

/// What `text.parse::<mime::Mime>()` gives, as text: `None` when it fails.
pub uninterp spec fn mime_text_of(text: Seq<char>) -> Option<Seq<char>>;

/// Parses `text` as a MIME type with `mime::Mime::from_str` and gives the
/// parsed type back as text. The contract claims only that the result is a
/// function of `text`.
#[verifier::external_body]
fn parse_mime(text: &str) -> (r: Option<String>)
    ensures
        r.deep_view() == mime_text_of(text@),
{
    text.parse::<mime::Mime>().ok().map(|m| m.to_string())
}

pub open spec fn octet_stream() -> Seq<char> {
    "application/octet-stream"@
}

/// The MIME type a media request is made with: the job's type when it
/// parses, else `application/octet-stream`.
pub open spec fn request_mime_text(mime_type: Option<Seq<char>>) -> Seq<char> {
    let given = match mime_type {
        Some(m) => m,
        None => octet_stream(),
    };
    match mime_text_of(given) {
        Some(m) => m,
        None => octet_stream(),
    }
}

/// The parsed MIME type, or `application/octet-stream` when parsing failed.
pub fn mime_or_octet_stream(parsed: Option<String>) -> (r: String)
    ensures
        r@ == match parsed.deep_view() {
            Some(m) => m,
            None => octet_stream(),
        },
{
    match parsed {
        Some(m) => m,
        None => String::from_str("application/octet-stream"),
    }
}

/// The MIME type a media request for a job is made with.
pub fn request_mime(mime_type: Option<&str>) -> (r: String)
    ensures
        r@ == request_mime_text(mime_type.deep_view()),
{
    let parsed = match mime_type {
        Some(m) => parse_mime(m),
        None => parse_mime("application/octet-stream"),
    };
    mime_or_octet_stream(parsed)
}

/// A temporary file's name: an identifier and, when it is not empty, the
/// extension.
pub open spec fn temp_name_text(id: Seq<char>, extension: Option<Seq<char>>) -> Seq<char> {
    match extension {
        Some(e) => if e.len() > 0 {
            id + seq!['.'] + e
        } else {
            id
        },
        None => id,
    }
}

pub fn temp_file_name(id: &str, extension: Option<&str>) -> (r: String)
    ensures
        r@ == temp_name_text(id@, extension.deep_view()),
{
    match extension {
        Some(e) => {
            if e.unicode_len() > 0 {
                let mut r = id.to_owned();
                push_char(&mut r, '.');
                push_str(&mut r, e);
                r
            } else {
                id.to_owned()
            }
        },
        None => id.to_owned(),
    }
}

/// The form of a UUID as `uuid` writes it: 36 characters, lower-case hex
/// digits in five groups of 8, 4, 4, 4 and 12, joined by `-`.
pub open spec fn hyphenated_uuid_form(t: Seq<char>) -> bool {
    &&& t.len() == 36
    &&& forall|i: int|
        0 <= i < 36 ==> if i == 8 || i == 13 || i == 18 || i == 23 {
            t[i] == '-'
        } else {
            ('0' <= #[trigger] t[i] <= '9') || ('a' <= t[i] <= 'f')
        }
}

/// A fresh random identifier, `uuid::Uuid::new_v4()` as text. As `uuid`'s
/// source shows, its text is the hyphenated lower-case form; which value
/// the random source gives is left open.
#[verifier::external_body]
fn new_uuid_text() -> (r: String)
    ensures
        hyphenated_uuid_form(r@),
{
    uuid::Uuid::new_v4().to_string()
}

/// What `std::path::Path::join` gives for `base` and `name`, as text, with
/// the path rules of the platform the crate is compiled for.
pub uninterp spec fn path_join_of(base: Seq<char>, name: Seq<char>) -> Seq<char>;

/// Joins `name` onto `base` with `std::path::Path::join`. The contract
/// claims only that the result is a function of the two texts.
#[verifier::external_body]
pub(crate) fn path_join(base: &str, name: &str) -> (r: String)
    ensures
        r@ == path_join_of(base@, name@),
{
    std::path::Path::new(base).join(name).to_string_lossy().into_owned()
}

/// A fresh path for a download in progress under `root`.
pub fn temp_download_path(root: &str, extension: Option<&str>) -> (r: String)
    ensures
        exists|id: Seq<char>|
            hyphenated_uuid_form(id) && r@ == path_join_of(root@, #[trigger] temp_name_text(id, extension.deep_view())),
{
    let id = new_uuid_text();
    let name = temp_file_name(id.as_str(), extension);
    let r = path_join(root, name.as_str());
    assert(r@ == path_join_of(root@, temp_name_text(id@, extension.deep_view())));
    r
}

/// The places an executable named `name` may have in the directory `dir`.
pub fn candidate_executable_paths(dir: &str, name: &str) -> (r: Vec<String>)
    ensures
        r@.len() == 1,
        r@[0]@ == path_join_of(dir@, name@),
{
    let mut r: Vec<String> = Vec::new();
    r.push(path_join(dir, name));
    r
}

/// A stored file's name: its content hash and the preferred extension.
pub open spec fn final_name_text(sha256: Seq<char>, extension: Option<Seq<char>>) -> Seq<char> {
    match extension {
        Some(e) => sha256 + seq!['.'] + e,
        None => sha256,
    }
}

pub fn final_file_name(sha256: &str, extension: Option<&str>) -> (r: String)
    ensures
        r@ == final_name_text(sha256@, extension.deep_view()),
{
    match extension {
        Some(e) => {
            let mut r = sha256.to_owned();
            push_char(&mut r, '.');
            push_str(&mut r, e);
            r
        },
        None => sha256.to_owned(),
    }
}

/// What `std::path::Path::strip_prefix` gives for `path` and `base`, as
/// text, with the path rules of the platform the crate is compiled for:
/// `None` when `base` is not a leading part of `path`.
pub uninterp spec fn path_strip_prefix_of(path: Seq<char>, base: Seq<char>) -> Option<Seq<char>>;

/// Strips `base` from the front of `path` with `std::path::Path::strip_prefix`,
/// which works on whole path components. The contract claims only that the
/// result is a function of the two texts.
#[verifier::external_body]
fn path_strip_prefix(path: &str, base: &str) -> (r: Option<String>)
    ensures
        r.deep_view() == path_strip_prefix_of(path@, base@),
{
    std::path::Path::new(path).strip_prefix(base).ok().map(|p| p.to_string_lossy().into_owned())
}

/// A stored path as recorded: backslashes turned into slashes, and no
/// leading slash.
pub open spec fn storage_path_text(path: Seq<char>) -> Seq<char> {
    trim_start_char_seq(replace_char_seq(path, '\\', '/'), '/')
}

/// The recorded form of a path, given the result of stripping the root from
/// it (the path itself when that failed).
pub fn storage_path_from(stripped: Option<String>, path: &str) -> (r: String)
    ensures
        r@ == storage_path_text(
            match stripped.deep_view() {
                Some(p) => p,
                None => path@,
            },
        ),
{
    let rest = match stripped {
        Some(p) => p,
        None => path.to_owned(),
    };
    let slashed = replace_char(rest.as_str(), '\\', '/');
    trim_start_char(slashed.as_str(), '/')
}

/// The path of a stored file relative to the destination root, with `/`
/// separators; a path outside the root is recorded as it is.
pub fn relative_storage_path(root: &str, path: &str) -> (r: String)
    ensures
        r@ == storage_path_text(
            match path_strip_prefix_of(path@, root@) {
                Some(p) => p,
                None => path@,
            },
        ),
{
    let stripped = path_strip_prefix(path, root);
    storage_path_from(stripped, path)
}

/// A lower-case hexadecimal digit.
pub open spec fn hex_lower(d: int) -> char {
    if d < 10 {
        (48 + d) as char
    } else {
        (87 + d) as char
    }
}

/// Bytes as lower-case hexadecimal, two digits each.
pub open spec fn lower_hex_text(bytes: Seq<u8>) -> Seq<char>
    decreases bytes.len(),
{
    if bytes.len() == 0 {
        Seq::empty()
    } else {
        lower_hex_text(bytes.drop_last()) + seq![
            hex_lower(bytes.last() as int / 16),
            hex_lower(bytes.last() as int % 16),
        ]
    }
}

fn hex_digit(d: u8) -> (c: char)
    requires
        d < 16,
    ensures
        c == hex_lower(d as int),
{
    if d < 10 {
        (48u8 + d) as char
    } else {
        (87u8 + d) as char
    }
}

/// Writes bytes as lower-case hexadecimal.
pub fn lower_hex(bytes: &[u8]) -> (r: String)
    ensures
        r@ == lower_hex_text(bytes@),
        r@.len() == 2 * bytes@.len(),
{
    let mut r = String::new();
    let mut i: usize = 0;
    while i < bytes.len()
        invariant
            i <= bytes@.len(),
            r@ == lower_hex_text(bytes@.take(i as int)),
            r@.len() == 2 * i,
        decreases bytes@.len() - i,
    {
        let b = bytes[i];
        push_char(&mut r, hex_digit(b / 16));
        push_char(&mut r, hex_digit(b % 16));
        proof {
            let t = bytes@.take(i + 1);
            assert(t.drop_last() =~= bytes@.take(i as int));
            assert(t.last() == b);
            assert(r@ =~= lower_hex_text(t));
        }
        i = i + 1;
    }
    assert(bytes@.take(bytes@.len() as int) =~= bytes@);
    r
}

/// The SHA-256 digest of some bytes.
pub uninterp spec fn sha256_of(bytes: Seq<u8>) -> Seq<u8>;

/// The SHA-256 digest of `bytes`, from `sha2::Sha256::digest`; as its type
/// shows, it is 32 bytes long.
#[verifier::external_body]
fn sha256_digest(bytes: &[u8]) -> (r: Vec<u8>)
    ensures
        r@ == sha256_of(bytes@),
        r@.len() == 32,
{
    sha2::Sha256::digest(bytes).to_vec()
}

/// The content hash a downloaded file is stored under: its SHA-256 digest in
/// lower-case hexadecimal.
pub fn sha256_hex(bytes: &[u8]) -> (r: String)
    ensures
        r@ == lower_hex_text(sha256_of(bytes@)),
        r@.len() == 64,
{
    let digest = sha256_digest(bytes);
    lower_hex(digest.as_slice())
}

/// Whether `image::load_from_memory` decodes some bytes.
pub uninterp spec fn image_decodes(bytes: Seq<u8>) -> bool;

/// Whether `image::load_from_memory` decodes `bytes` into an image. The
/// contract claims only that the answer is a function of the bytes.
#[verifier::external_body]
fn decodes_as_image(bytes: &[u8]) -> (r: bool)
    ensures
        r == image_decodes(bytes@),
{
    image::load_from_memory(bytes).is_ok()
}

/// The verdict on a downloaded file: an empty file fails, and an image must
/// decode; other kinds pass.
pub open spec fn media_verdict(empty: bool, category: MediaCategory, image_ok: bool) -> Option<
    ArchiveError,
> {
    if empty {
        Some(ArchiveError::EmptyFile)
    } else if category == MediaCategory::Images && !image_ok {
        Some(ArchiveError::UndecodableImage)
    } else {
        None
    }
}

/// The verdict on a downloaded file, given whether it is empty and whether
/// it decoded as an image.
pub fn media_check_outcome(empty: bool, category: MediaCategory, image_ok: bool) -> (r: Result<
    (),
    ArchiveError,
>)
    ensures
        match media_verdict(empty, category, image_ok) {
            None => r is Ok,
            Some(ArchiveError::EmptyFile) => r matches Err(ArchiveError::EmptyFile),
            Some(_) => r matches Err(ArchiveError::UndecodableImage),
        },
{
    if empty {
        Err(ArchiveError::EmptyFile)
    } else if category == MediaCategory::Images && !image_ok {
        Err(ArchiveError::UndecodableImage)
    } else {
        Ok(())
    }
}

/// Checks a downloaded file's bytes before it is stored.
pub fn validate_downloaded_media(bytes: &[u8], category: MediaCategory) -> (r: Result<
    (),
    ArchiveError,
>)
    ensures
        bytes@.len() == 0 ==> r matches Err(ArchiveError::EmptyFile),
        bytes@.len() > 0 && category == MediaCategory::Images && !image_decodes(bytes@) ==> r matches Err(
            ArchiveError::UndecodableImage,
        ),
        r is Ok <==> bytes@.len() > 0 && (category != MediaCategory::Images || image_decodes(
            bytes@,
        )),
{
    let empty = bytes.len() == 0;
    let image_ok = if !empty && category == MediaCategory::Images {
        decodes_as_image(bytes)
    } else {
        true
    };
    media_check_outcome(empty, category, image_ok)
}

} // verus!
