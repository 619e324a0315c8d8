//! Types shared with the qBittorrent adapter: the session snapshot, the tag
//! and category names, the per-torrent report the poller consumes, and the
//! adapter's error set. The HTTP calls themselves live outside; what stands
//! here is every decision about their inputs and outputs.

use vstd::prelude::*;
use vstd::utf8::encode_utf8;

use crate::hex::{hex_of, to_hex};

verus! {

/// What base32::decode with the RFC 4648 alphabet (no padding) yields for a
/// character string: some byte string, or nothing when a character is not of
/// the alphabet.
pub uninterp spec fn base32_decoded(s: Seq<char>) -> Option<Seq<u8>>;

/// Relies on base32::decode with `Alphabet::Rfc4648 { padding: false }`: the
/// result depends on the characters alone, non-ASCII input never decodes,
/// and 32 alphabet characters decode to 20 bytes (five bits each, truncated
/// to whole bytes).
#[verifier::external_body]
fn base32_decode(data: &str) -> (r: Option<Vec<u8>>)
    ensures
        r is Some <==> base32_decoded(data@) is Some,
        r matches Some(v) ==> base32_decoded(data@) == Some(v@),
        r matches Some(v) ==> (data@.len() == 32 ==> v@.len() == 20),
        r is Some ==> data.is_ascii(),
{
    base32::decode(base32::Alphabet::Rfc4648 { padding: false }, data)
}

/// Failures of the qBittorrent adapter.
#[derive(Debug)]
pub enum QbError {
    /// No session is held.
    NotLogin,
    /// The server's version is one the adapter does not speak.
    UnsupportedVersion,
    /// No torrent carrying the looked-for tag was found.
    NoNewTorrents,
    /// The torrent disappeared from the list mid-operation.
    Cancelled,
    /// A request failed, with a short message.
    Common(String),
    /// The URL is not a magnet link this adapter can read.
    ParseMagnet,
}

/// qBittorrent-side tag.
#[derive(Debug, Clone, Copy, PartialEq, Eq, Structural)]
pub enum Tag {
    /// A newly added torrent for which no task exists yet.
    Waited,
}

impl Tag {
    /// The literal tag string sent to qBittorrent.
    pub fn as_str(&self) -> (r: &'static str)
        ensures
            r@ == "qbd_waited"@,
    {
        match self {
            Tag::Waited => "qbd_waited",
        }
    }
}

/// The category every torrent of this system is filed under.
pub fn category() -> (r: &'static str)
    ensures
        r@ == "QBD"@,
{
    "QBD"
}

/// A qBittorrent session snapshot: where to talk, whether a login is held,
/// and which protocol generation the server speaks.
#[derive(Debug)]
pub struct Qb {
    pub host: String,
    pub logined: bool,
    pub version: u8,
    pub cookie: Option<String>,
}

impl Qb {
    /// A fresh, logged-out session pointing at the given host.
    pub fn new(host: String) -> (r: Qb)
        ensures
            r.host == host,
            !r.logined,
            r.version == 0,
            r.cookie is None,
    {
        Qb { host, logined: false, version: 0, cookie: None }
    }

    pub fn is_logined(&self) -> (r: bool)
        ensures
            r == self.logined,
    {
        self.logined
    }

    /// The host to talk to, available only while logged in.
    pub fn host(&self) -> (r: Result<&String, QbError>)
        ensures
            r is Ok <==> self.logined,
            r matches Ok(h) ==> h == &self.host,
            r matches Err(e) ==> e is NotLogin,
    {
        if self.logined {
            Ok(&self.host)
        } else {
            Err(QbError::NotLogin)
        }
    }

    pub fn version(&self) -> (r: u8)
        ensures
            r == self.version,
    {
        self.version
    }
}

/// The session that a login attempt leaves behind. A login needs both a
/// cookie from the credentials round and a supported protocol generation;
/// missing either leaves a logged-out session pointing at the host.
pub fn login_with(host: String, cookie: Option<String>, version: Option<u8>) -> (r: Qb)
    ensures
        r.host == host,
        r.logined <==> (cookie is Some && version is Some),
        cookie is Some && version is Some ==> r.cookie == cookie && r.version == version->0,
        !(cookie is Some && version is Some) ==> r.cookie is None && r.version == 0,
{
    match (cookie, version) {
        (Some(c), Some(v)) => Qb { host, logined: true, version: v, cookie: Some(c) },
        _ => Qb { host, logined: false, version: 0, cookie: None },
    }
}

/// Whether a failed request is retried: exactly once, and only when the
/// server answered 403 — the cookie has expired, so the adapter logs in
/// again and repeats the request.
pub fn retry_after_forbidden(status: u16, already_retried: bool) -> (r: bool)
    ensures
        r == (status == 403 && !already_retried),
{
    status == 403 && !already_retried
}

/// Which protocol generation a server's version numbers fall in: generation
/// 5 for any 5.x, generation 4 from 4.1 on, and nothing older or newer. The
/// adapter hands in the leading numbers of the version string (`None` where
/// a number is missing or malformed).
pub fn version_from_parts(major: Option<u8>, minor: Option<u8>) -> (r: Result<u8, QbError>)
    ensures
        major == Some(5u8) ==> r == Ok::<u8, QbError>(5),
        (major == Some(4u8) && (minor matches Some(m) && m >= 1)) ==> r == Ok::<u8, QbError>(4),
        !(major == Some(5u8) || (major == Some(4u8) && (minor matches Some(m) && m >= 1))) ==> (
        r matches Err(e) && e is UnsupportedVersion),
{
    match major {
        Some(5) => Ok(5),
        Some(4) => {
            match minor {
                Some(m) if m >= 1 => Ok(4),
                _ => Err(QbError::UnsupportedVersion),
            }
        },
        _ => Err(QbError::UnsupportedVersion),
    }
}

/// The verb that starts a torrent: qBittorrent 5 renamed `resume` to `start`.
pub fn start_verb(version: u8) -> (r: &'static str)
    ensures
        version < 5 ==> r@ == "resume"@,
        version >= 5 ==> r@ == "start"@,
{
    if version < 5 {
        "resume"
    } else {
        "start"
    }
}

/// The verb that stops a torrent: qBittorrent 5 renamed `pause` to `stop`.
pub fn stop_verb(version: u8) -> (r: &'static str)
    ensures
        version < 5 ==> r@ == "pause"@,
        version >= 5 ==> r@ == "stop"@,
{
    if version < 5 {
        "pause"
    } else {
        "stop"
    }
}

/// One torrent of our category as qBittorrent reports it each poll: its
/// hash, its state word, and its progress in thousandths.
#[derive(Debug, Clone)]
pub struct TorrentInfo {
    pub hash: String,
    pub state: String,
    pub progress_permille: u32,
}

/// Find the first `&` at or after `from`, or the end of the string.
fn find_amp(url: &str, from: usize) -> (r: usize)
    requires
        from <= url@.len(),
    ensures
        r == amp_end(url@, from as int),
        from <= r <= url@.len(),
{
    let ulen = url.unicode_len();
    let mut j = from;
    while j < ulen
        invariant
            from <= j <= ulen,
            ulen == url@.len(),
            amp_end(url@, from as int) == amp_end(url@, j as int),
        decreases ulen - j,
    {
        if url.get_char(j) == '&' {
            proof {
                assert(amp_end(url@, j as int) == j as int);
            }
            return j;
        }
        j += 1;
    }
    proof {
        assert(amp_end(url@, j as int) == j as int);
    }
    j
}

/// The magnet URI prefix that announces an info-hash.
pub open spec fn magnet_prefix() -> Seq<char> {
    "magnet:?xt=urn:btih:"@
}

/// The position of the first `&` at or after `i`, or the end.
pub open spec fn amp_end(url: Seq<char>, i: int) -> int
    decreases url.len() - i,
{
    if i < 0 || i >= url.len() {
        url.len() as int
    } else if url[i] == '&' {
        i
    } else {
        amp_end(url, i + 1)
    }
}

/// The hash span of a magnet URI: what stands between the prefix and the
/// first `&` (or the end).
pub open spec fn magnet_span(url: Seq<char>) -> Seq<char> {
    url.subrange(magnet_prefix().len() as int, amp_end(url, magnet_prefix().len() as int))
}

pub open spec fn has_magnet_prefix(url: Seq<char>) -> bool {
    url.len() >= magnet_prefix().len() && url.subrange(0, magnet_prefix().len() as int)
        == magnet_prefix()
}

/// Read the info-hash out of a magnet link. The hash span is returned as
/// given, except that a 32-byte span is base32 and is decoded to its 40-hex
/// form. Anything that does not open with the magnet prefix — an HTTP URL,
/// say — fails with `ParseMagnet`, as does a 32-byte span that is not valid
/// base32.
pub fn try_parse_hash(url: &str) -> (r: Result<String, QbError>)
    ensures
        r is Ok <==> has_magnet_prefix(url@) && (encode_utf8(magnet_span(url@)).len() == 32
            ==> base32_decoded(magnet_span(url@)) is Some),
        r matches Ok(h) ==> (encode_utf8(magnet_span(url@)).len() != 32 ==> h@ == magnet_span(
            url@,
        )),
        r matches Ok(h) ==> (encode_utf8(magnet_span(url@)).len() == 32 ==> h@ == hex_of(
            base32_decoded(magnet_span(url@)).unwrap(),
        ) && h@.len() == 40),
        r matches Err(e) ==> e is ParseMagnet,
{
    let prefix = "magnet:?xt=urn:btih:";
    proof {
        reveal_strlit("magnet:?xt=urn:btih:");
    }
    let plen = prefix.unicode_len();
    let ulen = url.unicode_len();
    if ulen < plen {
        return Err(QbError::ParseMagnet);
    }
    let mut i: usize = 0;
    while i < plen
        invariant
            i <= plen,
            plen == magnet_prefix().len(),
            ulen == url@.len(),
            plen <= ulen,
            prefix@ == magnet_prefix(),
            forall|k: int| 0 <= k < i ==> url@[k] == magnet_prefix()[k],
        decreases plen - i,
    {
        if url.get_char(i) != prefix.get_char(i) {
            proof {
                assert(url@.subrange(0, magnet_prefix().len() as int) != magnet_prefix()) by {
                    assert(url@.subrange(0, magnet_prefix().len() as int)[i as int] == url@[
                        i as int]);
                }
            }
            return Err(QbError::ParseMagnet);
        }
        i += 1;
    }
    proof {
        assert(url@.subrange(0, magnet_prefix().len() as int) =~= magnet_prefix());
        assert(has_magnet_prefix(url@));
    }
    let end = find_amp(url, plen);
    let hash_str = url.substring_char(plen, end);
    proof {
        assert(hash_str@ =~= magnet_span(url@));
    }
    let span_bytes = hash_str.as_bytes();
    proof {
        assert(span_bytes@ == encode_utf8(magnet_span(url@)));
    }
    if span_bytes.len() == 32 {
        match base32_decode(hash_str) {
            Some(bytes) => {
                proof {
                    vstd::utf8::is_ascii_chars_encode_utf8(hash_str@);
                    assert(hash_str@.len() == 32);
                }
                Ok(to_hex(bytes.as_slice()))
            },
            None => Err(QbError::ParseMagnet),
        }
    } else {
        Ok(String::from_str(hash_str))
    }
}

} // verus!
