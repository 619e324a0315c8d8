//! Plain records and lookups at the operator-facing edge: query parameters
//! as name/value pairs, and the request and response records of torrent
//! ingestion. Parsing HTTP itself is the frontend's job.

use vstd::prelude::*;

use crate::str_eq;

verus! {

/// The value of the first pair carrying the given key, if any.
pub open spec fn spec_lookup(params: Seq<(String, String)>, key: Seq<char>) -> Option<String>
    decreases params.len(),
{
    if params.len() == 0 {
        None
    } else if params.first().0@ == key {
        Some(params.first().1)
    } else {
        spec_lookup(params.drop_first(), key)
    }
}

/// Extract a parameter from decoded query pairs, if present.
pub fn get_option_param(params: &Vec<(String, String)>, key: &str) -> (r: Option<String>)
    ensures
        match r {
            Some(v) => spec_lookup(params@, key@) == Some(v),
            None => spec_lookup(params@, key@) is None,
        },
{
    proof {
        assert(params@.skip(0) =~= params@);
    }
    let mut i: usize = 0;
    while i < params.len()
        invariant
            i <= params@.len(),
            spec_lookup(params@, key@) == spec_lookup(params@.skip(i as int), key@),
        decreases params@.len() - i,
    {
        proof {
            assert(params@.skip(i as int).first() == params@[i as int]);
            assert(params@.skip(i as int).drop_first() =~= params@.skip(i as int + 1));
        }
        if str_eq(params[i].0.as_str(), key) {
            return Some(params[i].1.clone());
        }
        i += 1;
    }
    proof {
        assert(params@.skip(i as int) =~= Seq::<(String, String)>::empty());
    }
    None
}

/// Extract a parameter, falling back to a default when it is missing.
pub fn get_param_or(params: &Vec<(String, String)>, key: &str, default: String) -> (r: String)
    ensures
        r == match spec_lookup(params@, key@) {
            Some(v) => v,
            None => default,
        },
{
    match get_option_param(params, key) {
        Some(v) => v,
        None => default,
    }
}

/// What a completed ingestion reports back: the torrent's name, its
/// info-hash, and where its data will be saved.
#[derive(Debug, Clone)]
pub struct TorrentRes {
    pub torrent_name: String,
    pub hash: String,
    pub save_path: String,
}

/// A request to ingest a torrent by URL.
#[derive(Debug, Clone)]
pub struct TorrentReq {
    pub url: String,
    pub save_path: String,
}

} // verus!
