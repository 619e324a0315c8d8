//! The ingestion pipeline's routing: given what the caller brought — raw
//! torrent bytes, a magnet link, or a plain URL — decide the hash and which
//! add protocol the qBittorrent adapter must run. The adapter performs the
//! HTTP calls and the cache write; everything decidable from the input alone
//! is decided here.

use vstd::prelude::*;

use crate::bencode::{get_hash, info_span, BencodeError};
use crate::hex::hex_of;
use crate::digest::sha1_of;
use crate::qb::{base32_decoded, has_magnet_prefix, magnet_span, try_parse_hash};
use vstd::utf8::encode_utf8;
use crate::task::TaskError;

verus! {

/// What an adapter failure during the metadata wait or the export means for
/// the ingestion: `Cancelled` is the user aborting the wait — the caller
/// answers with a successful no-op — and anything else is a plain adapter
/// failure.
pub fn export_failure(e: crate::qb::QbError) -> (r: TaskError)
    ensures
        e is Cancelled ==> r is Abort,
        !(e is Cancelled) ==> (r matches TaskError::Qb(q) && q == e),
{
    match e {
        crate::qb::QbError::Cancelled => TaskError::Abort,
        other => TaskError::Qb(other),
    }
}

/// How a torrent enters the system.
#[derive(Debug, Clone)]
pub enum IngestRoute {
    /// Raw `.torrent` bytes: the hash is known up front; cache the bytes and
    /// add them directly.
    Bytes { hash: String },
    /// A magnet link naming its info-hash: add by URL, then export the
    /// fetched metadata into the cache under that hash.
    MagnetKnownHash { hash: String },
    /// Any other URL: the hash is unknown, so the whole add must run under
    /// the single-flight lock — add by URL, find the hash by the waited tag,
    /// wait for metadata, export.
    UrlUnknownHash,
}

/// Decide the ingestion route. Bytes are hashed here — the info-hash of
/// exactly the `info` dictionary's span — and fail only when they are not a
/// bencoded torrent; a URL always has a route — a magnet link whose hash can
/// be read is known up front, anything else takes the unknown-hash path.
pub fn add_torrent_route(file: Option<&[u8]>, url: &str) -> (r: Result<IngestRoute, TaskError>)
    ensures
        file matches Some(bytes) ==> match r {
            Ok(route) => route matches IngestRoute::Bytes { hash } && info_span(bytes@) is Some
                && hash@.len() == 40 && hash@ == hex_of(
                sha1_of(
                    bytes@.subrange(info_span(bytes@).unwrap().0, info_span(bytes@).unwrap().1),
                ),
            ),
            Err(e) => e matches TaskError::Bencode(be) && be is Decode && info_span(
                bytes@,
            ) is None,
        },
        file is None ==> r is Ok,
        file is None && has_magnet_prefix(url@) && (encode_utf8(magnet_span(url@)).len() == 32
            ==> base32_decoded(magnet_span(url@)) is Some) ==> (r->Ok_0 matches
            IngestRoute::MagnetKnownHash { hash } && (encode_utf8(magnet_span(url@)).len() != 32
            ==> hash@ == magnet_span(url@)) && (encode_utf8(magnet_span(url@)).len() == 32
            ==> hash@ == hex_of(base32_decoded(magnet_span(url@)).unwrap()))),
        file is None && !(has_magnet_prefix(url@) && (encode_utf8(magnet_span(url@)).len() == 32
            ==> base32_decoded(magnet_span(url@)) is Some)) ==> r->Ok_0 is UrlUnknownHash,
{
    match file {
        Some(bytes) => {
            match get_hash(bytes) {
                Ok(hash) => Ok(IngestRoute::Bytes { hash }),
                Err(e) => Err(TaskError::Bencode(e)),
            }
        },
        None => {
            match try_parse_hash(url) {
                Ok(hash) => Ok(IngestRoute::MagnetKnownHash { hash }),
                Err(_) => Ok(IngestRoute::UrlUnknownHash),
            }
        },
    }
}

} // verus!
