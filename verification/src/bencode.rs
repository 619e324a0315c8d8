//! Just enough of the bencode format to serve ingestion: locating the raw
//! `info` dictionary (whose SHA-1 is the torrent's identity), the torrent's
//! root directory name, and the per-file lengths. The byte layout is the
//! BitTorrent one: integers `i...e`, strings `<len>:<bytes>`, lists `l...e`,
//! dictionaries `d...e` of string keys and values. The spec functions below
//! define that layout mathematically; each reader is proved to agree with
//! them exactly, succeeding on precisely the well-formed inputs.

use vstd::prelude::*;
use vstd::slice::slice_subrange;
use vstd::string::StringSliceAdditionalSpecFns;

use crate::digest::{sha1_digest, sha1_of};
use crate::hex::{hex_of, to_hex};

verus! {

broadcast use vstd::std_specs::vec::group_vec_axioms, vstd::seq::axiom_seq_index_decreases;

/// Failures while reading a torrent file.
#[derive(Debug)]
pub enum BencodeError {
    /// The bytes are not the expected bencode shape.
    Decode,
    /// An unexpected failure, with a short message.
    Common(String),
    /// The torrent holds a single file; only multi-file torrents have parts.
    SingleFile,
}

/// What `String::from_utf8_lossy` makes of a byte string.
pub uninterp spec fn utf8_lossy_of(bytes: Seq<u8>) -> Seq<char>;

/// Relies on String::from_utf8_lossy: a function of the bytes alone that
/// keeps ASCII bytes as the characters they spell.
#[verifier::external_body]
fn utf8_lossy(bytes: &[u8]) -> (r: String)
    ensures
        r@ == utf8_lossy_of(bytes@),
        (forall|i: int| 0 <= i < bytes@.len() ==> bytes@[i] < 128) ==> r@ == bytes@.map_values(
            |b: u8| b as char,
        ),
{
    String::from_utf8_lossy(bytes).into_owned()
}

/// An ASCII decimal digit.
pub open spec fn is_ascii_digit(b: u8) -> bool {
    48 <= b <= 57
}

/// The position of the first non-digit at or after `pos`.
pub open spec fn digits_end(data: Seq<u8>, pos: int) -> int
    decreases data.len() - pos,
{
    if pos < 0 || pos >= data.len() {
        pos
    } else if is_ascii_digit(data[pos]) {
        digits_end(data, pos + 1)
    } else {
        pos
    }
}

/// The decimal value of the digits `data[pos .. end]`.
pub open spec fn dec_val(data: Seq<u8>, pos: int, end: int) -> int
    decreases end - pos,
{
    if end <= pos {
        0
    } else {
        dec_val(data, pos, end - 1) * 10 + (data[end - 1] - 48)
    }
}

/// The content bounds of a `<len>:<bytes>` string starting at `pos`, when
/// one stands there whole.
pub open spec fn string_content(data: Seq<u8>, pos: int) -> Option<(int, int)> {
    let de = digits_end(data, pos);
    if pos < 0 || pos >= data.len() || de == pos {
        None
    } else if de >= data.len() || data[de] != 58 {
        None
    } else {
        let n = dec_val(data, pos, de);
        if de + 1 + n <= data.len() {
            Some((de + 1, de + 1 + n))
        } else {
            None
        }
    }
}

/// The position after an `i...e` integer starting at `pos` (whose byte is
/// already known to be `i`), when one stands there whole.
pub open spec fn int_end(data: Seq<u8>, pos: int) -> Option<int> {
    let s0 = pos + 1;
    let s = if s0 < data.len() && data[s0] == 45 {
        s0 + 1
    } else {
        s0
    };
    let de = digits_end(data, s);
    if de == s {
        None
    } else if de < data.len() && data[de] == 101 {
        Some(de + 1)
    } else {
        None
    }
}

/// The position after one whole bencode value starting at `pos`; `None` when
/// no well-formed value stands there.
pub open spec fn value_end(data: Seq<u8>, pos: int) -> Option<int>
    decreases data.len() - pos, 0int,
{
    if pos < 0 || pos >= data.len() {
        None
    } else if data[pos] == 105 {
        int_end(data, pos)
    } else if is_ascii_digit(data[pos]) {
        match string_content(data, pos) {
            Some(c) => Some(c.1),
            None => None,
        }
    } else if data[pos] == 108 {
        items_end(data, pos + 1, false)
    } else if data[pos] == 100 {
        items_end(data, pos + 1, true)
    } else {
        None
    }
}

/// The position after the closing `e` of a list's or dictionary's items,
/// scanning from `pos`; a dictionary pairs each value with a string key.
pub open spec fn items_end(data: Seq<u8>, pos: int, dict: bool) -> Option<int>
    decreases data.len() - pos, 1int,
{
    if pos < 0 || pos >= data.len() {
        None
    } else if data[pos] == 101 {
        Some(pos + 1)
    } else {
        let start = if dict {
            match string_content(data, pos) {
                Some(c) => if pos < c.1 <= data.len() {
                    c.1
                } else {
                    -1
                },
                None => -1,
            }
        } else {
            pos
        };
        if start < pos {
            None
        } else {
            match value_end(data, start) {
                Some(ve) => if pos < ve <= data.len() {
                    items_end(data, ve, dict)
                } else {
                    None
                },
                None => None,
            }
        }
    }
}

/// The value span of the first pair with the given key, scanning a
/// dictionary's pairs from `pos`: `None` is a malformed dictionary,
/// `Some(None)` a well-formed scan that hit the closing `e` without the key.
pub open spec fn dict_find(data: Seq<u8>, pos: int, key: Seq<u8>) -> Option<Option<(int, int)>>
    decreases data.len() - pos,
{
    if pos < 0 || pos >= data.len() {
        None
    } else if data[pos] == 101 {
        Some(None)
    } else {
        match string_content(data, pos) {
            Some(c) => if !(pos < c.1 <= data.len()) {
                None
            } else {
                match value_end(data, c.1) {
                    Some(ve) => if data.subrange(c.0, c.1) == key {
                        Some(Some((c.1, ve)))
                    } else if c.1 < ve <= data.len() {
                        dict_find(data, ve, key)
                    } else {
                        None
                    },
                    None => None,
                }
            },
            None => None,
        }
    }
}

/// The raw byte span of the `info` dictionary's value: the torrent must be a
/// bencoded dictionary carrying an `info` entry.
pub open spec fn info_span(data: Seq<u8>) -> Option<(int, int)> {
    if data.len() == 0 || data[0] != 100 {
        None
    } else {
        match dict_find(data, 1, "info".spec_bytes()) {
            Some(Some(sp)) => Some(sp),
            _ => None,
        }
    }
}

/// The value of an `i...e` integer filling `data[pos .. end]` as far as the
/// reader accepts it: present, at least one digit, closed by `e` within the
/// span, and no larger in magnitude than a 64-bit integer holds.
pub open spec fn int_span_value(data: Seq<u8>, pos: int, end: int) -> Option<int> {
    if pos < 0 || pos >= end || pos >= data.len() || data[pos] != 105 {
        None
    } else {
        let s0 = pos + 1;
        let neg = s0 < end && data[s0] == 45;
        let s = if neg {
            s0 + 1
        } else {
            s0
        };
        let de = digits_end(data, s);
        if de == s || de >= end {
            None
        } else if data[de] != 101 {
            None
        } else {
            let v = dec_val(data, s, de);
            if v <= 0x7fff_ffff_ffff_ffff {
                Some(
                    if neg {
                        -v
                    } else {
                        v
                    },
                )
            } else {
                None
            }
        }
    }
}

/// The name span of the torrent, or the error its shape earns: `Decode`
/// when the bytes are not a dictionary with a well-formed `info` dictionary
/// carrying a `name` string, `SingleFile` when `info` carries a top-level
/// `length` entry.
pub open spec fn spec_torrent_name(data: Seq<u8>) -> Result<(int, int), BencodeError> {
    match info_span(data) {
        Some(isp) => {
            if !(isp.0 < data.len() && data[isp.0] == 100) {
                Err(BencodeError::Decode)
            } else {
                match dict_find(data, isp.0 + 1, "length".spec_bytes()) {
                    None => Err(BencodeError::Decode),
                    Some(Some(_)) => Err(BencodeError::SingleFile),
                    Some(None) => match dict_find(data, isp.0 + 1, "name".spec_bytes()) {
                        Some(Some(nsp)) => match string_content(data, nsp.0) {
                            Some(c) => if c.1 <= nsp.1 {
                                Ok(c)
                            } else {
                                Err(BencodeError::Decode)
                            },
                            None => Err(BencodeError::Decode),
                        },
                        _ => Err(BencodeError::Decode),
                    },
                }
            }
        },
        None => Err(BencodeError::Decode),
    }
}

/// The `length` values of the entries of a `files` list, scanning from `pos`
/// (just after the `l`): each entry must be a dictionary carrying a
/// nonnegative integer `length`.
pub open spec fn files_lengths(data: Seq<u8>, pos: int) -> Option<Seq<i64>>
    decreases data.len() - pos,
{
    if pos < 0 || pos >= data.len() {
        None
    } else if data[pos] == 101 {
        Some(Seq::<i64>::empty())
    } else if data[pos] != 100 {
        None
    } else {
        match value_end(data, pos) {
            Some(ee) => if !(pos < ee <= data.len()) {
                None
            } else {
                match dict_find(data, pos + 1, "length".spec_bytes()) {
                    Some(Some(lsp)) => match int_span_value(data, lsp.0, lsp.1) {
                        Some(v) => if 0 <= v {
                            match files_lengths(data, ee) {
                                Some(rest) => Some(seq![v as i64].add(rest)),
                                None => None,
                            }
                        } else {
                            None
                        },
                        None => None,
                    },
                    _ => None,
                }
            },
            None => None,
        }
    }
}

/// The per-file lengths of the torrent, or the error its shape earns; the
/// torrent must carry a well-formed `files` list inside `info`, and its
/// absence means a single-file torrent.
pub open spec fn spec_file_lengths(data: Seq<u8>) -> Result<Seq<i64>, BencodeError> {
    match info_span(data) {
        Some(isp) => {
            if !(isp.0 < data.len() && data[isp.0] == 100) {
                Err(BencodeError::Decode)
            } else {
                match dict_find(data, isp.0 + 1, "files".spec_bytes()) {
                    Some(Some(fsp)) => if fsp.0 < data.len() && data[fsp.0] == 108 {
                        match files_lengths(data, fsp.0 + 1) {
                            Some(ls) => Ok(ls),
                            None => Err(BencodeError::Decode),
                        }
                    } else {
                        Err(BencodeError::Decode)
                    },
                    Some(None) => Err(BencodeError::SingleFile),
                    None => Err(BencodeError::Decode),
                }
            }
        },
        None => Err(BencodeError::Decode),
    }
}

/// The content spans of the string items of a list, scanning from `pos`
/// (just after the `l`): every item must be a string.
pub open spec fn string_items(data: Seq<u8>, pos: int) -> Option<Seq<(int, int)>>
    decreases data.len() - pos,
{
    if pos < 0 || pos >= data.len() {
        None
    } else if data[pos] == 101 {
        Some(Seq::<(int, int)>::empty())
    } else {
        match string_content(data, pos) {
            Some(c) => if pos < c.1 <= data.len() {
                match string_items(data, c.1) {
                    Some(rest) => Some(seq![c].add(rest)),
                    None => None,
                }
            } else {
                None
            },
            None => None,
        }
    }
}

/// The path-segment spans of the entries of a `files` list, scanning from
/// `pos` (just after the `l`): each entry must be a dictionary carrying a
/// `path` list of strings.
pub open spec fn files_path_spans(data: Seq<u8>, pos: int) -> Option<Seq<Seq<(int, int)>>>
    decreases data.len() - pos,
{
    if pos < 0 || pos >= data.len() {
        None
    } else if data[pos] == 101 {
        Some(Seq::<Seq<(int, int)>>::empty())
    } else if data[pos] != 100 {
        None
    } else {
        match value_end(data, pos) {
            Some(ee) => if !(pos < ee <= data.len()) {
                None
            } else {
                match dict_find(data, pos + 1, "path".spec_bytes()) {
                    Some(Some(psp)) => if psp.0 < data.len() && data[psp.0] == 108 {
                        match string_items(data, psp.0 + 1) {
                            Some(items) => match files_path_spans(data, ee) {
                                Some(rest) => Some(seq![items].add(rest)),
                                None => None,
                            },
                            None => None,
                        }
                    } else {
                        None
                    },
                    _ => None,
                }
            },
            None => None,
        }
    }
}

/// The per-file path spans of the torrent, or the error its shape earns:
/// each `files` entry must carry a `path` list of strings.
pub open spec fn spec_file_paths(data: Seq<u8>) -> Result<Seq<Seq<(int, int)>>, BencodeError> {
    match info_span(data) {
        Some(isp) => {
            if !(isp.0 < data.len() && data[isp.0] == 100) {
                Err(BencodeError::Decode)
            } else {
                match dict_find(data, isp.0 + 1, "files".spec_bytes()) {
                    Some(Some(fsp)) => if fsp.0 < data.len() && data[fsp.0] == 108 {
                        match files_path_spans(data, fsp.0 + 1) {
                            Some(sp) => Ok(sp),
                            None => Err(BencodeError::Decode),
                        }
                    } else {
                        Err(BencodeError::Decode)
                    },
                    Some(None) => Err(BencodeError::SingleFile),
                    None => Err(BencodeError::Decode),
                }
            }
        },
        None => Err(BencodeError::Decode),
    }
}

/// Every byte before the first non-digit is a digit, and that boundary
/// stays within the data.
proof fn lemma_digits_props(data: Seq<u8>, pos: int)
    requires
        0 <= pos <= data.len(),
    ensures
        pos <= digits_end(data, pos) <= data.len(),
        forall|k: int| pos <= k < digits_end(data, pos) ==> is_ascii_digit(#[trigger] data[k]),
    decreases data.len() - pos,
{
    if pos < data.len() && is_ascii_digit(data[pos]) {
        lemma_digits_props(data, pos + 1);
    }
}

/// A digit string's value is nonnegative.
proof fn lemma_dec_val_nonneg(data: Seq<u8>, pos: int, end: int)
    requires
        pos <= end,
        forall|k: int| pos <= k < end ==> is_ascii_digit(#[trigger] data[k]),
    ensures
        0 <= dec_val(data, pos, end),
    decreases end - pos,
{
    if pos < end {
        lemma_dec_val_nonneg(data, pos, end - 1);
    }
}

/// Extending a digit string never shrinks its value.
proof fn lemma_dec_val_monotone(data: Seq<u8>, pos: int, i: int, j: int)
    requires
        pos <= i <= j,
        forall|k: int| pos <= k < j ==> is_ascii_digit(#[trigger] data[k]),
    ensures
        dec_val(data, pos, i) <= dec_val(data, pos, j),
    decreases j - i,
{
    if i < j {
        lemma_dec_val_monotone(data, pos, i, j - 1);
        lemma_dec_val_nonneg(data, pos, j - 1);
    }
}

/// Skip the digits of a number, returning the position after them; at least
/// one digit is required.
fn skip_digits(data: &[u8], pos: usize) -> (r: Result<usize, BencodeError>)
    requires
        pos <= data@.len(),
    ensures
        r is Ok <==> digits_end(data@, pos as int) > pos,
        r matches Ok(p) ==> p == digits_end(data@, pos as int) && pos < p <= data@.len(),
        r matches Err(e) ==> e is Decode,
{
    let mut cur = pos;
    while cur < data.len() && 48 <= data[cur] && data[cur] <= 57
        invariant
            pos <= cur <= data@.len(),
            digits_end(data@, pos as int) == digits_end(data@, cur as int),
        decreases data@.len() - cur,
    {
        cur += 1;
    }
    proof {
        assert(digits_end(data@, cur as int) == cur as int);
    }
    if cur == pos {
        Err(BencodeError::Decode)
    } else {
        Ok(cur)
    }
}

/// Skip an `i...e` integer, returning the position after the `e`.
fn skip_int(data: &[u8], pos: usize) -> (r: Result<usize, BencodeError>)
    requires
        pos < data@.len(),
        data@[pos as int] == 105,
    ensures
        r is Ok <==> int_end(data@, pos as int) is Some,
        r matches Ok(p) ==> int_end(data@, pos as int) == Some(p as int) && pos < p <= data@.len(),
        r matches Err(e) ==> e is Decode,
{
    let n = data.len();
    let mut cur = pos + 1;
    if cur < n && data[cur] == 45 {
        cur += 1;
    }
    proof {
        lemma_digits_props(data@, cur as int);
    }
    let cur = match skip_digits(data, cur) {
        Ok(p) => p,
        Err(e) => {
            return Err(e);
        },
    };
    if cur < n && data[cur] == 101 {
        Ok(cur + 1)
    } else {
        Err(BencodeError::Decode)
    }
}

/// Read a `<len>:<bytes>` string, returning the bounds of its content and
/// the position after it.
fn string_bounds(data: &[u8], pos: usize) -> (r: Result<(usize, usize), BencodeError>)
    requires
        pos < data@.len(),
    ensures
        r is Ok <==> string_content(data@, pos as int) is Some,
        r matches Ok(b) ==> string_content(data@, pos as int) == Some((b.0 as int, b.1 as int))
            && pos < b.0 <= b.1 <= data@.len(),
        r matches Err(e) ==> e is Decode,
{
    proof {
        lemma_digits_props(data@, pos as int);
    }
    let digits_stop = match skip_digits(data, pos) {
        Ok(p) => p,
        Err(e) => {
            return Err(e);
        },
    };
    let ghost de = digits_end(data@, pos as int);
    let ghost total = dec_val(data@, pos as int, de);
    let mut len: usize = 0;
    let mut i = pos;
    while i < digits_stop
        invariant
            pos <= i <= digits_stop <= data@.len(),
            digits_stop as int == de,
            de == digits_end(data@, pos as int),
            total == dec_val(data@, pos as int, de),
            forall|k: int| pos <= k < de ==> is_ascii_digit(#[trigger] data@[k]),
            len as int == dec_val(data@, pos as int, i as int),
            len <= data@.len(),
        decreases digits_stop - i,
    {
        let c = data[i];
        let d = (c - 48) as usize;
        let big = data.len();
        if len > big / 10 {
            proof {
                assert((big / 10) * 10 + big % 10 == big);
                assert(len as int * 10 + d > big);
                lemma_dec_val_monotone(data@, pos as int, i as int + 1, de);
                assert(total > data@.len());
            }
            return Err(BencodeError::Decode);
        }
        if d > big - len * 10 {
            proof {
                assert(len as int * 10 + d > big);
                lemma_dec_val_monotone(data@, pos as int, i as int + 1, de);
                assert(total > data@.len());
            }
            return Err(BencodeError::Decode);
        }
        len = len * 10 + d;
        i += 1;
    }
    proof {
        assert(len as int == total);
    }
    if digits_stop < data.len() && data[digits_stop] == 58 {
        let content = digits_stop + 1;
        if len <= data.len() - content {
            Ok((content, content + len))
        } else {
            Err(BencodeError::Decode)
        }
    } else {
        Err(BencodeError::Decode)
    }
}

/// Skip one bencode value of any shape, returning the position after it.
fn skip_value(data: &[u8], pos: usize) -> (r: Result<usize, BencodeError>)
    requires
        pos <= data@.len(),
    ensures
        r is Ok <==> value_end(data@, pos as int) is Some,
        r matches Ok(p) ==> value_end(data@, pos as int) == Some(p as int) && pos < p
            <= data@.len(),
        r matches Err(e) ==> e is Decode,
    decreases data@.len() - pos,
{
    if pos >= data.len() {
        return Err(BencodeError::Decode);
    }
    let b = data[pos];
    if b == 105 {
        skip_int(data, pos)
    } else if 48 <= b && b <= 57 {
        match string_bounds(data, pos) {
            Ok((_, end)) => Ok(end),
            Err(e) => Err(e),
        }
    } else if b == 108 || b == 100 {
        let is_dict = b == 100;
        let mut cur = pos + 1;
        while cur < data.len() && data[cur] != 101
            invariant
                pos < cur <= data@.len(),
                is_dict == (data@[pos as int] == 100),
                data@[pos as int] == 108 || data@[pos as int] == 100,
                items_end(data@, pos as int + 1, is_dict) == items_end(
                    data@,
                    cur as int,
                    is_dict,
                ),
            decreases data@.len() - cur,
        {
            if is_dict {
                cur = match string_bounds(data, cur) {
                    Ok((_, end)) => end,
                    Err(e) => {
                        return Err(e);
                    },
                };
            }
            cur = match skip_value(data, cur) {
                Ok(p) => p,
                Err(e) => {
                    return Err(e);
                },
            };
        }
        if cur < data.len() {
            proof {
                assert(items_end(data@, cur as int, is_dict) == Some(cur as int + 1));
            }
            Ok(cur + 1)
        } else {
            proof {
                assert(items_end(data@, cur as int, is_dict) is None);
            }
            Err(BencodeError::Decode)
        }
    } else {
        Err(BencodeError::Decode)
    }
}

/// Whether the key bytes spell the looked-for name.
fn key_is(data: &[u8], start: usize, end: usize, name: &[u8]) -> (r: bool)
    requires
        start <= end <= data@.len(),
    ensures
        r == (data@.subrange(start as int, end as int) =~= name@),
{
    if end - start != name.len() {
        proof {
            assert(data@.subrange(start as int, end as int).len() != name@.len());
        }
        return false;
    }
    let mut i: usize = 0;
    while i < name.len()
        invariant
            i <= name@.len(),
            start <= end <= data@.len(),
            end - start == name@.len(),
            forall|k: int| 0 <= k < i ==> data@[start + k] == name@[k],
        decreases name@.len() - i,
    {
        if data[start + i] != name[i] {
            proof {
                assert(data@.subrange(start as int, end as int)[i as int] != name@[i as int]);
            }
            return false;
        }
        i += 1;
    }
    proof {
        assert(data@.subrange(start as int, end as int) =~= name@);
    }
    true
}

/// Scan the pairs of a dictionary whose content starts at `pos` (just after
/// the `d`) for the given key, returning the bounds of its value; `None`
/// when the dictionary ends without it.
fn find_dict_value(data: &[u8], pos: usize, name: &[u8]) -> (r: Result<
    Option<(usize, usize)>,
    BencodeError,
>)
    requires
        pos <= data@.len(),
    ensures
        r matches Ok(Some(b)) ==> dict_find(data@, pos as int, name@) == Some(
            Some((b.0 as int, b.1 as int)),
        ) && pos <= b.0 < b.1 <= data@.len(),
        r matches Ok(None) ==> dict_find(data@, pos as int, name@) == Some(
            None::<(int, int)>,
        ),
        r is Err <==> dict_find(data@, pos as int, name@) is None,
        r matches Err(e) ==> e is Decode,
    decreases data@.len() - pos,
{
    if pos >= data.len() {
        return Err(BencodeError::Decode);
    }
    if data[pos] == 101 {
        return Ok(None);
    }
    let (key_start, key_end) = match string_bounds(data, pos) {
        Ok(b) => b,
        Err(e) => {
            return Err(e);
        },
    };
    let value_stop = match skip_value(data, key_end) {
        Ok(p) => p,
        Err(e) => {
            return Err(e);
        },
    };
    if key_is(data, key_start, key_end, name) {
        Ok(Some((key_end, value_stop)))
    } else {
        find_dict_value(data, value_stop, name)
    }
}

/// The bounds of the raw `info` dictionary value inside a torrent file.
fn info_bounds(data: &[u8]) -> (r: Result<(usize, usize), BencodeError>)
    ensures
        r is Ok <==> info_span(data@) is Some,
        r matches Ok(b) ==> info_span(data@) == Some((b.0 as int, b.1 as int)) && b.0 < b.1
            <= data@.len(),
        r matches Err(e) ==> e is Decode,
{
    if data.len() == 0 || data[0] != 100 {
        return Err(BencodeError::Decode);
    }
    match find_dict_value(data, 1, "info".as_bytes()) {
        Ok(Some(b)) => Ok(b),
        Ok(None) => Err(BencodeError::Decode),
        Err(_) => Err(BencodeError::Decode),
    }
}

/// The info-hash of a torrent file: the lowercase-hex SHA-1 of the raw bytes
/// of its `info` dictionary value. Succeeds exactly when the bytes are a
/// bencoded dictionary carrying an `info` entry, and the hash is the digest
/// of that entry's span and nothing else.
pub fn get_hash(file: &[u8]) -> (r: Result<String, BencodeError>)
    ensures
        r is Ok <==> info_span(file@) is Some,
        r matches Ok(h) ==> h@.len() == 40 && h@ == hex_of(
            sha1_of(
                file@.subrange(info_span(file@).unwrap().0, info_span(file@).unwrap().1),
            ),
        ),
        r matches Err(e) ==> e is Decode,
{
    let (start, end) = match info_bounds(file) {
        Ok(b) => b,
        Err(_) => {
            return Err(BencodeError::Decode);
        },
    };
    let raw = slice_subrange(file, start, end);
    let digest = sha1_digest(raw);
    let h = to_hex(digest.as_slice());
    proof {
        assert(h@ == hex_of(sha1_of(file@.subrange(start as int, end as int))));
    }
    Ok(h)
}

/// Parse an `i...e` integer value filling `data[pos .. end]` into an `i64`.
fn parse_int_value(data: &[u8], pos: usize, end: usize) -> (r: Result<i64, BencodeError>)
    requires
        pos <= end <= data@.len(),
    ensures
        r is Ok <==> int_span_value(data@, pos as int, end as int) is Some,
        r matches Ok(v) ==> int_span_value(data@, pos as int, end as int) == Some(v as int),
        r matches Err(e) ==> e is Decode,
{
    if pos >= end || data[pos] != 105 {
        return Err(BencodeError::Decode);
    }
    let mut cur = pos + 1;
    let mut negative = false;
    if cur < end && data[cur] == 45 {
        negative = true;
        cur = cur + 1;
    }
    let ghost s = cur as int;
    proof {
        lemma_digits_props(data@, s);
    }
    let ghost de = digits_end(data@, s);
    let mut value: i64 = 0;
    let mut any = false;
    while cur < end && 48 <= data[cur] && data[cur] <= 57
        invariant
            pos < s <= cur as int,
            cur <= end <= data@.len(),
            pos < end,
            data@[pos as int] == 105,
            negative == (pos + 1 < end && data@[pos as int + 1] == 45),
            s == if negative {
                pos + 2
            } else {
                pos + 1
            },
            de == digits_end(data@, s),
            s <= de <= data@.len(),
            forall|k: int| s <= k < de ==> is_ascii_digit(#[trigger] data@[k]),
            digits_end(data@, cur as int) == de,
            any <==> cur as int > s,
            0 <= value,
            value as int == dec_val(data@, s, cur as int),
        decreases end - cur,
    {
        let d = (data[cur] - 48) as i64;
        if value > (i64::MAX - d) / 10 {
            proof {
                assert((i64::MAX - d) / 10 * 10 + (i64::MAX - d) % 10 == i64::MAX - d);
                assert(value as int * 10 + d > i64::MAX);
                lemma_digits_props(data@, cur as int + 1);
                assert(digits_end(data@, cur as int) == digits_end(data@, cur as int + 1));
                assert(cur as int + 1 <= de);
                lemma_dec_val_monotone(data@, s, cur as int + 1, de);
                assert(dec_val(data@, s, de) > 0x7fff_ffff_ffff_ffff);
            }
            return Err(BencodeError::Decode);
        }
        value = value * 10 + d;
        any = true;
        cur += 1;
    }
    proof {
        if cur < end {
            assert(digits_end(data@, cur as int) == cur as int);
        } else {
            lemma_digits_props(data@, end as int);
            assert(de == digits_end(data@, end as int));
            assert(de >= end);
        }
    }
    if !any || cur >= end || data[cur] != 101 {
        proof {
            assert(int_span_value(data@, pos as int, end as int) is None);
        }
        return Err(BencodeError::Decode);
    }
    if negative {
        Ok(-value)
    } else {
        Ok(value)
    }
}

/// The torrent's root directory name: the `name` entry of the `info`
/// dictionary, decoded as UTF-8 (lossily). Succeeds exactly on a well-formed
/// multi-file header; a torrent whose `info` carries a top-level `length`
/// entry is a single-file torrent and earns `SingleFile`.
pub fn get_torrent_name(file: &[u8]) -> (r: Result<String, BencodeError>)
    ensures
        r is Ok <==> spec_torrent_name(file@) is Ok,
        r matches Ok(name) ==> (spec_torrent_name(file@) matches Ok(c) && name@ == utf8_lossy_of(
            file@.subrange(c.0, c.1),
        )),
        r matches Err(e) ==> spec_torrent_name(file@) == Err::<(int, int), BencodeError>(e),
{
    let (info_start, _info_end) = match info_bounds(file) {
        Ok(b) => b,
        Err(_) => {
            return Err(BencodeError::Decode);
        },
    };
    if !(info_start < file.len() && file[info_start] == 100) {
        return Err(BencodeError::Decode);
    }
    match find_dict_value(file, info_start + 1, "length".as_bytes()) {
        Ok(Some(_)) => {
            return Err(BencodeError::SingleFile);
        },
        Ok(None) => {},
        Err(_) => {
            return Err(BencodeError::Decode);
        },
    }
    let (name_start, name_end) = match find_dict_value(file, info_start + 1, "name".as_bytes()) {
        Ok(Some(b)) => b,
        Ok(None) => {
            return Err(BencodeError::Decode);
        },
        Err(_) => {
            return Err(BencodeError::Decode);
        },
    };
    if name_start >= file.len() {
        proof {
            assert(string_content(file@, name_start as int) is None);
        }
        return Err(BencodeError::Decode);
    }
    let (content_start, content_end) = match string_bounds(file, name_start) {
        Ok(b) => b,
        Err(_) => {
            return Err(BencodeError::Decode);
        },
    };
    if content_end > name_end {
        return Err(BencodeError::Decode);
    }
    let name = utf8_lossy(slice_subrange(file, content_start, content_end));
    proof {
        assert(name@ == utf8_lossy_of(file@.subrange(content_start as int, content_end as int)));
    }
    Ok(name)
}

/// The root directory name and the per-file lengths of a multi-file
/// torrent: `info.name`, and `files[k].length` for each entry of
/// `info.files`, in file order; every length is nonnegative. Succeeds
/// exactly on a well-formed multi-file torrent.
pub fn parse_torrent(file: &[u8]) -> (r: Result<(String, Vec<i64>), BencodeError>)
    ensures
        r is Ok <==> (spec_torrent_name(file@) is Ok && spec_file_lengths(file@) is Ok),
        r matches Ok(p) ==> (spec_torrent_name(file@) matches Ok(c) && p.0@ == utf8_lossy_of(
            file@.subrange(c.0, c.1),
        )) && spec_file_lengths(file@) == Ok::<Seq<i64>, BencodeError>(p.1@) && (forall|k: int|
            0 <= k < p.1@.len() ==> p.1@[k] >= 0),
        r matches Err(e) ==> (e is Decode || e is SingleFile),
{
    let name = match get_torrent_name(file) {
        Ok(n) => n,
        Err(e) => {
            proof {
                assert(spec_torrent_name(file@) is Err);
            }
            return Err(e);
        },
    };
    let (info_start, _info_end) = match info_bounds(file) {
        Ok(b) => b,
        Err(_) => {
            proof {
                assert(spec_torrent_name(file@) is Err);
            }
            return Err(BencodeError::Decode);
        },
    };
    if !(info_start < file.len() && file[info_start] == 100) {
        proof {
            assert(spec_torrent_name(file@) is Err);
        }
        return Err(BencodeError::Decode);
    }
    let (files_start, _files_end) = match find_dict_value(file, info_start + 1, "files".as_bytes())
        {
        Ok(Some(b)) => b,
        Ok(None) => {
            return Err(BencodeError::SingleFile);
        },
        Err(_) => {
            return Err(BencodeError::Decode);
        },
    };
    if !(files_start < file.len() && file[files_start] == 108) {
        return Err(BencodeError::Decode);
    }
    proof {
        assert(spec_file_lengths(file@) == (match files_lengths(file@, files_start as int + 1) {
            Some(ls) => Ok::<Seq<i64>, BencodeError>(ls),
            None => Err::<Seq<i64>, BencodeError>(BencodeError::Decode),
        }));
    }
    let ghost name_chars = name@;
    let mut lengths: Vec<i64> = Vec::new();
    let mut cur = files_start + 1;
    while cur < file.len() && file[cur] != 101
        invariant
            files_start < cur <= file@.len(),
            spec_file_lengths(file@) == (match files_lengths(file@, files_start as int + 1) {
                Some(ls) => Ok::<Seq<i64>, BencodeError>(ls),
                None => Err::<Seq<i64>, BencodeError>(BencodeError::Decode),
            }),
            spec_torrent_name(file@) is Ok,
            name@ == name_chars,
            name_chars == utf8_lossy_of(
                file@.subrange(
                    spec_torrent_name(file@).unwrap().0,
                    spec_torrent_name(file@).unwrap().1,
                ),
            ),
            files_lengths(file@, files_start as int + 1) == (match files_lengths(
                file@,
                cur as int,
            ) {
                Some(rest) => Some(lengths@.add(rest)),
                None => None::<Seq<i64>>,
            }),
            forall|k: int| 0 <= k < lengths@.len() ==> lengths@[k] >= 0,
        decreases file@.len() - cur,
    {
        if file[cur] != 100 {
            return Err(BencodeError::Decode);
        }
        let entry_end = match skip_value(file, cur) {
            Ok(p) => p,
            Err(_) => {
                return Err(BencodeError::Decode);
            },
        };
        let (len_start, len_end) = match find_dict_value(file, cur + 1, "length".as_bytes()) {
            Ok(Some(b)) => b,
            Ok(None) => {
                return Err(BencodeError::Decode);
            },
            Err(_) => {
                return Err(BencodeError::Decode);
            },
        };
        let length = match parse_int_value(file, len_start, len_end) {
            Ok(v) => v,
            Err(_) => {
                return Err(BencodeError::Decode);
            },
        };
        if length < 0 {
            return Err(BencodeError::Decode);
        }
        let ghost lens_before = lengths@;
        lengths.push(length);
        proof {
            assert(files_lengths(file@, cur as int) == (match files_lengths(
                file@,
                entry_end as int,
            ) {
                Some(rest) => Some(seq![length].add(rest)),
                None => None::<Seq<i64>>,
            }));
            match files_lengths(file@, entry_end as int) {
                Some(rest) => {
                    assert(lens_before.add(seq![length].add(rest)) =~= lengths@.add(rest));
                },
                None => {},
            }
        }
        cur = entry_end;
    }
    if cur >= file.len() {
        proof {
            assert(files_lengths(file@, cur as int) is None);
        }
        return Err(BencodeError::Decode);
    }
    proof {
        assert(files_lengths(file@, cur as int) == Some(Seq::<i64>::empty()));
        assert(lengths@.add(Seq::<i64>::empty()) =~= lengths@);
    }
    Ok((name, lengths))
}

/// The path segments of every file of a multi-file torrent:
/// `files[k].path` for each entry, each segment decoded as UTF-8 (lossily),
/// in file order. Succeeds exactly when the torrent carries a well-formed
/// `files` list whose every entry has a `path` list of strings.
pub fn get_file_name_list(file: &[u8]) -> (r: Result<Vec<Vec<String>>, BencodeError>)
    ensures
        r is Ok <==> spec_file_paths(file@) is Ok,
        r matches Ok(paths) ==> (spec_file_paths(file@) matches Ok(sp) && paths@.len() == sp.len()
            && (forall|e: int|
            0 <= e < sp.len() ==> (#[trigger] paths@[e])@.len() == sp[e].len()) && (forall|
            e: int,
            k: int,
        |
            0 <= e < sp.len() && 0 <= k < sp[e].len() ==> (#[trigger] sp[e][k]) == sp[e][k]
                && paths@[e]@[k]@ == utf8_lossy_of(file@.subrange(sp[e][k].0, sp[e][k].1)))),
        r matches Err(e) ==> (e is Decode || e is SingleFile),
{
    let (info_start, _info_end) = match info_bounds(file) {
        Ok(b) => b,
        Err(_) => {
            return Err(BencodeError::Decode);
        },
    };
    if !(info_start < file.len() && file[info_start] == 100) {
        return Err(BencodeError::Decode);
    }
    let (files_start, _files_end) = match find_dict_value(file, info_start + 1, "files".as_bytes())
        {
        Ok(Some(b)) => b,
        Ok(None) => {
            return Err(BencodeError::SingleFile);
        },
        Err(_) => {
            return Err(BencodeError::Decode);
        },
    };
    if !(files_start < file.len() && file[files_start] == 108) {
        return Err(BencodeError::Decode);
    }
    let ghost fstart = files_start as int + 1;
    proof {
        assert(spec_file_paths(file@) == (match files_path_spans(file@, fstart) {
            Some(sp) => Ok::<Seq<Seq<(int, int)>>, BencodeError>(sp),
            None => Err::<Seq<Seq<(int, int)>>, BencodeError>(BencodeError::Decode),
        }));
    }
    let mut paths: Vec<Vec<String>> = Vec::new();
    let ghost mut done: Seq<Seq<(int, int)>> = Seq::empty();
    let mut cur = files_start + 1;
    while cur < file.len() && file[cur] != 101
        invariant
            files_start < cur <= file@.len(),
            fstart == files_start as int + 1,
            spec_file_paths(file@) == (match files_path_spans(file@, fstart) {
                Some(sp) => Ok::<Seq<Seq<(int, int)>>, BencodeError>(sp),
                None => Err::<Seq<Seq<(int, int)>>, BencodeError>(BencodeError::Decode),
            }),
            files_path_spans(file@, fstart) == (match files_path_spans(file@, cur as int) {
                Some(rest) => Some(done.add(rest)),
                None => None::<Seq<Seq<(int, int)>>>,
            }),
            paths@.len() == done.len(),
            forall|e: int| 0 <= e < done.len() ==> (#[trigger] paths@[e])@.len() == done[e].len(),
            forall|e: int, k: int|
                #![trigger done[e][k]]
                0 <= e < done.len() && 0 <= k < done[e].len() ==> paths@[e]@[k]@
                    == utf8_lossy_of(file@.subrange(done[e][k].0, done[e][k].1)),
        decreases file@.len() - cur,
    {
        if file[cur] != 100 {
            return Err(BencodeError::Decode);
        }
        let entry_end = match skip_value(file, cur) {
            Ok(p) => p,
            Err(_) => {
                return Err(BencodeError::Decode);
            },
        };
        let (path_start, path_end) = match find_dict_value(file, cur + 1, "path".as_bytes()) {
            Ok(Some(b)) => b,
            Ok(None) => {
                return Err(BencodeError::Decode);
            },
            Err(_) => {
                return Err(BencodeError::Decode);
            },
        };
        if !(path_start < file.len() && file[path_start] == 108) {
            return Err(BencodeError::Decode);
        }
        let mut segs: Vec<String> = Vec::new();
        let ghost mut seg_done: Seq<(int, int)> = Seq::empty();
        let mut p = path_start + 1;
        while p < file.len() && file[p] != 101
            invariant
                files_start < cur < file@.len(),
                cur < entry_end <= file@.len(),
                fstart == files_start as int + 1,
                file@[cur as int] == 100,
                file@[cur as int] != 101,
                value_end(file@, cur as int) == Some(entry_end as int),
                dict_find(file@, cur as int + 1, "path".spec_bytes()) == Some(
                    Some((path_start as int, path_end as int)),
                ),
                path_start < p <= file@.len(),
                file@[path_start as int] == 108,
                spec_file_paths(file@) == (match files_path_spans(file@, fstart) {
                    Some(sp) => Ok::<Seq<Seq<(int, int)>>, BencodeError>(sp),
                    None => Err::<Seq<Seq<(int, int)>>, BencodeError>(BencodeError::Decode),
                }),
                files_path_spans(file@, fstart) == (match files_path_spans(file@, cur as int) {
                    Some(rest) => Some(done.add(rest)),
                    None => None::<Seq<Seq<(int, int)>>>,
                }),
                string_items(file@, path_start as int + 1) == (match string_items(
                    file@,
                    p as int,
                ) {
                    Some(rest) => Some(seg_done.add(rest)),
                    None => None::<Seq<(int, int)>>,
                }),
                segs@.len() == seg_done.len(),
                forall|k: int|
                    0 <= k < seg_done.len() ==> (#[trigger] segs@[k])@ == utf8_lossy_of(
                        file@.subrange(seg_done[k].0, seg_done[k].1),
                    ),
                paths@.len() == done.len(),
                forall|e: int|
                    0 <= e < done.len() ==> (#[trigger] paths@[e])@.len() == done[e].len(),
                forall|e: int, k: int|
                    #![trigger done[e][k]]
                    0 <= e < done.len() && 0 <= k < done[e].len() ==> paths@[e]@[k]@
                        == utf8_lossy_of(file@.subrange(done[e][k].0, done[e][k].1)),
            decreases file@.len() - p,
        {
            let (seg_start, seg_end) = match string_bounds(file, p) {
                Ok(b) => b,
                Err(_) => {
                    return Err(BencodeError::Decode);
                },
            };
            let segment = utf8_lossy(slice_subrange(file, seg_start, seg_end));
            let ghost seg_done_before = seg_done;
            segs.push(segment);
            proof {
                seg_done = seg_done.push((seg_start as int, seg_end as int));
                assert(string_items(file@, p as int) == (match string_items(
                    file@,
                    seg_end as int,
                ) {
                    Some(rest) => Some(seq![(seg_start as int, seg_end as int)].add(rest)),
                    None => None::<Seq<(int, int)>>,
                }));
                match string_items(file@, seg_end as int) {
                    Some(rest) => {
                        assert(seg_done_before.add(
                            seq![(seg_start as int, seg_end as int)].add(rest),
                        ) =~= seg_done.add(rest));
                    },
                    None => {},
                }
            }
            p = seg_end;
        }
        if p >= file.len() {
            proof {
                assert(string_items(file@, p as int) is None);
            }
            return Err(BencodeError::Decode);
        }
        proof {
            assert(string_items(file@, p as int) == Some(Seq::<(int, int)>::empty()));
            assert(seg_done.add(Seq::<(int, int)>::empty()) =~= seg_done);
            assert(string_items(file@, path_start as int + 1) == Some(seg_done));
        }
        let ghost done_before = done;
        let ghost segs_snapshot = segs@;
        paths.push(segs);
        proof {
            done = done.push(seg_done);
            assert(files_path_spans(file@, cur as int) == (match files_path_spans(
                file@,
                entry_end as int,
            ) {
                Some(rest) => Some(seq![seg_done].add(rest)),
                None => None::<Seq<Seq<(int, int)>>>,
            }));
            match files_path_spans(file@, entry_end as int) {
                Some(rest) => {
                    assert(done_before.add(seq![seg_done].add(rest)) =~= done.add(rest));
                },
                None => {},
            }
            assert(paths@[done.len() - 1]@ == segs_snapshot);
        }
        cur = entry_end;
    }
    if cur >= file.len() {
        proof {
            assert(files_path_spans(file@, cur as int) is None);
        }
        return Err(BencodeError::Decode);
    }
    proof {
        assert(files_path_spans(file@, cur as int) == Some(Seq::<Seq<(int, int)>>::empty()));
        assert(done.add(Seq::<Seq<(int, int)>>::empty()) =~= done);
        assert(files_path_spans(file@, fstart) == Some(done));
    }
    Ok(paths)
}

/// The mathematical shape of a content-tree node.
#[verifier::ext_equal]
pub ghost struct NodeModel {
    pub id: int,
    pub label: Seq<char>,
    pub children: Seq<NodeModel>,
}

/// The first child carrying the given label, if any.
pub open spec fn model_child_index(children: Seq<NodeModel>, label: Seq<char>) -> Option<int>
    decreases children.len(),
{
    if children.len() == 0 {
        None
    } else if children.first().label == label {
        Some(0int)
    } else {
        match model_child_index(children.drop_first(), label) {
            Some(i) => Some(i + 1),
            None => None,
        }
    }
}

/// Insert one file's path suffix `path[j..]` into the tree: descend through
/// existing children by label, creating missing ones; the final segment is
/// the file and carries `file_id`, every created or traversed directory
/// segment draws the next id from the falling `folder` counter.
pub open spec fn spec_insert_path(
    node: NodeModel,
    path: Seq<Seq<char>>,
    j: int,
    file_id: int,
    folder: int,
) -> (NodeModel, int)
    decreases path.len() - j,
{
    if j < 0 || j >= path.len() {
        (node, folder)
    } else {
        let last = j == path.len() - 1;
        let folder2 = if last {
            folder
        } else {
            folder - 1
        };
        let id = if last {
            file_id
        } else {
            folder2
        };
        match model_child_index(node.children, path[j]) {
            Some(ci) => {
                let rec = spec_insert_path(node.children[ci], path, j + 1, file_id, folder2);
                (NodeModel { children: node.children.update(ci, rec.0), ..node }, rec.1)
            },
            None => {
                let fresh = NodeModel { id, label: path[j], children: Seq::<NodeModel>::empty() };
                let rec = spec_insert_path(fresh, path, j + 1, file_id, folder2);
                (NodeModel { children: node.children.push(rec.0), ..node }, rec.1)
            },
        }
    }
}

/// Insert the paths `paths[i..]` in order, numbering files by position.
pub open spec fn spec_build_from(
    root: NodeModel,
    paths: Seq<Seq<Seq<char>>>,
    i: int,
    folder: int,
) -> NodeModel
    decreases paths.len() - i,
{
    if i < 0 || i >= paths.len() {
        root
    } else {
        let step = spec_insert_path(root, paths[i], 0, i, folder);
        spec_build_from(step.0, paths, i + 1, step.1)
    }
}

/// The path lists as character sequences.
pub open spec fn paths_view(file_name_list: Seq<Vec<String>>) -> Seq<Seq<Seq<char>>> {
    file_name_list.map_values(|p: Vec<String>| p@.map_values(|s: String| s@))
}

/// The summed segment count of the first `i` paths, which bounds how far the
/// directory-id counter can fall.
pub open spec fn total_segments(paths: Seq<Seq<Seq<char>>>, i: int) -> int
    decreases i,
{
    if i <= 0 {
        0
    } else {
        total_segments(paths, i - 1) + paths[i - 1].len()
    }
}

/// Segment counts only grow with more paths.
proof fn lemma_total_segments_monotone(paths: Seq<Seq<Seq<char>>>, i: int, j: int)
    requires
        0 <= i <= j,
    ensures
        total_segments(paths, i) <= total_segments(paths, j),
    decreases j - i,
{
    if i < j {
        lemma_total_segments_monotone(paths, i, j - 1);
    }
}

/// A content-tree node under construction, children in insertion order.
pub struct FileNodeBuilder {
    pub id: i32,
    pub label: String,
    pub children: Vec<FileNodeBuilder>,
}

impl FileNodeBuilder {
    /// The node this builder stands for.
    pub open spec fn model(self) -> NodeModel
        decreases self, 1int,
    {
        NodeModel {
            id: self.id as int,
            label: self.label@,
            children: FileNodeBuilder::models(self.children@),
        }
    }

    pub open spec fn models(nodes: Seq<FileNodeBuilder>) -> Seq<NodeModel>
        decreases nodes, 0int,
    {
        if nodes.len() == 0 {
            Seq::<NodeModel>::empty()
        } else {
            seq![nodes.first().model()].add(FileNodeBuilder::models(nodes.drop_first()))
        }
    }

    pub fn new(id: i32, label: String) -> (r: FileNodeBuilder)
        ensures
            r.model() == (NodeModel {
                id: id as int,
                label: label@,
                children: Seq::<NodeModel>::empty(),
            }),
    {
        let r = FileNodeBuilder { id, label, children: Vec::new() };
        proof {
            assert(r.model() =~= NodeModel {
                id: id as int,
                label: r.label@,
                children: Seq::<NodeModel>::empty(),
            });
        }
        r
    }

    /// Build the content tree of a torrent: the root directory, with one
    /// path of the torrent inserted after another, files numbered by their
    /// position in the list.
    pub fn build(file_name_list: Vec<Vec<String>>, root_dir: String) -> (r: FileNodeBuilder)
        requires
            file_name_list@.len() < 0x8000_0000,
            total_segments(paths_view(file_name_list@), file_name_list@.len() as int)
                < 0x7fff_fffe,
        ensures
            r.model() == spec_build_from(
                NodeModel { id: -1int, label: root_dir@, children: Seq::<NodeModel>::empty() },
                paths_view(file_name_list@),
                0,
                -1,
            ),
    {
        let ghost pv = paths_view(file_name_list@);
        let mut root = FileNodeBuilder::new(-1, root_dir);
        let ghost root0 = root.model();
        let mut folder: i32 = -1;
        let mut i: usize = 0;
        while i < file_name_list.len()
            invariant
                i <= file_name_list@.len(),
                file_name_list@.len() < 0x8000_0000,
                pv == paths_view(file_name_list@),
                total_segments(pv, file_name_list@.len() as int) < 0x7fff_fffe,
                spec_build_from(root0, pv, 0, -1) == spec_build_from(
                    root.model(),
                    pv,
                    i as int,
                    folder as int,
                ),
                -1 - total_segments(pv, i as int) <= folder <= -1,
            decreases file_name_list@.len() - i,
        {
            proof {
                lemma_total_segments_monotone(pv, i as int + 1, file_name_list@.len() as int);
                assert(pv[i as int] == file_name_list@[i as int]@.map_values(|s: String| s@));
            }
            let step = insert_path(root, &file_name_list[i], 0, i as i32, folder);
            root = step.0;
            folder = step.1;
            i += 1;
        }
        root
    }
}

/// Find the first child carrying the label.
fn find_child(children: &Vec<FileNodeBuilder>, label: &str) -> (r: Option<usize>)
    ensures
        match r {
            Some(i) => 0 <= i < children@.len() && model_child_index(
                FileNodeBuilder::models(children@),
                label@,
            ) == Some(i as int),
            None => model_child_index(FileNodeBuilder::models(children@), label@) is None,
        },
{
    proof {
        lemma_models(children@);
    }
    let ghost ms = FileNodeBuilder::models(children@);
    proof {
        assert(ms.skip(0) =~= ms);
    }
    let mut i: usize = 0;
    while i < children.len()
        invariant
            i <= children@.len(),
            ms == FileNodeBuilder::models(children@),
            ms.len() == children@.len(),
            forall|k: int| 0 <= k < ms.len() ==> #[trigger] ms[k] == children@[k].model(),
            model_child_index(ms, label@) == (match model_child_index(
                ms.skip(i as int),
                label@,
            ) {
                Some(x) => Some(x + i as int),
                None => None::<int>,
            }),
        decreases children@.len() - i,
    {
        proof {
            assert(ms.skip(i as int).first() == ms[i as int]);
            assert(ms.skip(i as int).drop_first() =~= ms.skip(i as int + 1));
        }
        if crate::str_eq(children[i].label.as_str(), label) {
            return Some(i);
        }
        i += 1;
    }
    proof {
        assert(ms.skip(i as int) =~= Seq::<NodeModel>::empty());
    }
    None
}

/// The models of a node list, one per node, in order.
proof fn lemma_models(nodes: Seq<FileNodeBuilder>)
    ensures
        FileNodeBuilder::models(nodes).len() == nodes.len(),
        forall|k: int|
            0 <= k < nodes.len() ==> #[trigger] FileNodeBuilder::models(nodes)[k]
                == nodes[k].model(),
    decreases nodes.len(),
{
    if nodes.len() > 0 {
        lemma_models(nodes.drop_first());
        assert(forall|k: int|
            0 < k < nodes.len() ==> #[trigger] FileNodeBuilder::models(nodes)[k]
                == FileNodeBuilder::models(nodes.drop_first())[k - 1]);
        assert(forall|k: int|
            0 < k < nodes.len() ==> nodes.drop_first()[k - 1] == #[trigger] nodes[k]);
    }
}

/// Insert one file's path suffix into the tree.
fn insert_path(node: FileNodeBuilder, path: &Vec<String>, j: usize, file_id: i32, folder: i32) -> (r:
    (FileNodeBuilder, i32))
    requires
        j <= path@.len(),
        folder as int - (path@.len() - j) >= i32::MIN,
        folder <= -1,
    ensures
        (r.0.model(), r.1 as int) == spec_insert_path(
            node.model(),
            path@.map_values(|s: String| s@),
            j as int,
            file_id as int,
            folder as int,
        ),
        folder as int - (path@.len() - j) <= r.1 <= folder,
    decreases path@.len() - j,
{
    let ghost pv = path@.map_values(|s: String| s@);
    if j == path.len() {
        return (node, folder);
    }
    let last = j == path.len() - 1;
    let folder2: i32 = if last {
        folder
    } else {
        folder - 1
    };
    let id: i32 = if last {
        file_id
    } else {
        folder2
    };
    proof {
        assert(pv[j as int] == path@[j as int]@);
    }
    let ghost node0 = node.model();
    match find_child(&node.children, path[j].as_str()) {
        Some(ci) => {
            let mut node = node;
            let ghost children_before = node.children@;
            let child = node.children.remove(ci);
            proof {
                lemma_models(children_before);
                assert(child.model() == node0.children[ci as int]);
            }
            let rec = insert_path(child, path, j + 1, file_id, folder2);
            node.children.insert(ci, rec.0);
            proof {
                assert(node.children@ =~= children_before.update(ci as int, rec.0));
                lemma_models(node.children@);
                assert(FileNodeBuilder::models(node.children@) =~= node0.children.update(
                    ci as int,
                    rec.0.model(),
                ));
                assert(node.model() =~= (NodeModel {
                    children: node0.children.update(ci as int, rec.0.model()),
                    ..node0
                }));
                assert(spec_insert_path(node0, pv, j as int, file_id as int, folder as int)
                    == (node.model(), rec.1 as int));
            }
            (node, rec.1)
        },
        None => {
            let fresh = FileNodeBuilder::new(id, path[j].clone());
            let rec = insert_path(fresh, path, j + 1, file_id, folder2);
            let mut node = node;
            let ghost children_before = node.children@;
            node.children.push(rec.0);
            proof {
                assert(node.children@ =~= children_before.push(rec.0));
                lemma_models(node.children@);
                lemma_models(children_before);
                assert(FileNodeBuilder::models(node.children@) =~= node0.children.push(
                    rec.0.model(),
                ));
                assert(node.model() =~= (NodeModel {
                    children: node0.children.push(rec.0.model()),
                    ..node0
                }));
                assert(spec_insert_path(node0, pv, j as int, file_id as int, folder as int)
                    == (node.model(), rec.1 as int));
            }
            (node, rec.1)
        },
    }
}

/// A node of the torrent's content tree as shown to the operator: a file
/// (no children) or a directory.
#[derive(Debug)]
pub struct FileNode {
    pub id: i32,
    pub label: String,
    pub children: Vec<FileNode>,
}

/// The models of finished nodes, one per node, in order.
impl FileNode {
    /// The node's mathematical shape.
    pub open spec fn model(self) -> NodeModel
        decreases self, 1int,
    {
        NodeModel {
            id: self.id as int,
            label: self.label@,
            children: FileNode::models(self.children@),
        }
    }

    pub open spec fn models(nodes: Seq<FileNode>) -> Seq<NodeModel>
        decreases nodes, 0int,
    {
        if nodes.len() == 0 {
            Seq::<NodeModel>::empty()
        } else {
            seq![nodes.first().model()].add(FileNode::models(nodes.drop_first()))
        }
    }
}

/// The models of a finished node list, one per node, in order.
proof fn lemma_fnode_models(nodes: Seq<FileNode>)
    ensures
        FileNode::models(nodes).len() == nodes.len(),
        forall|k: int|
            0 <= k < nodes.len() ==> #[trigger] FileNode::models(nodes)[k] == nodes[k].model(),
    decreases nodes.len(),
{
    if nodes.len() > 0 {
        lemma_fnode_models(nodes.drop_first());
        assert(forall|k: int|
            0 < k < nodes.len() ==> #[trigger] FileNode::models(nodes)[k] == FileNode::models(
                nodes.drop_first(),
            )[k - 1]);
        assert(forall|k: int|
            0 < k < nodes.len() ==> nodes.drop_first()[k - 1] == #[trigger] nodes[k]);
    }
}

/// The display order on node models: directories before files, then label.
pub open spec fn spec_model_cmp(a: NodeModel, b: NodeModel) -> core::cmp::Ordering {
    let a_is_file = a.children.len() == 0;
    let b_is_file = b.children.len() == 0;
    if a_is_file && !b_is_file {
        core::cmp::Ordering::Greater
    } else if !a_is_file && b_is_file {
        core::cmp::Ordering::Less
    } else {
        crate::spec_lex_cmp(a.label, b.label)
    }
}

/// Place a node into an already display-ordered list, after everything not
/// above it — a stable insertion.
pub open spec fn spec_sorted_insert(sorted: Seq<NodeModel>, x: NodeModel) -> Seq<NodeModel>
    decreases sorted.len(),
{
    if sorted.len() == 0 {
        seq![x]
    } else if !(spec_model_cmp(sorted.first(), x) is Greater) {
        seq![sorted.first()].add(spec_sorted_insert(sorted.drop_first(), x))
    } else {
        seq![x].add(sorted)
    }
}

/// The display order of a node list: each node inserted in turn — a stable
/// insertion sort.
pub open spec fn spec_sort(nodes: Seq<NodeModel>) -> Seq<NodeModel>
    decreases nodes.len(),
{
    if nodes.len() == 0 {
        Seq::<NodeModel>::empty()
    } else {
        spec_sorted_insert(spec_sort(nodes.drop_last()), nodes.last())
    }
}

/// The finished form of a node under construction: the same tree with every
/// directory's children in display order.
pub open spec fn spec_into_node(m: NodeModel) -> NodeModel
    decreases m, 1int,
{
    NodeModel { id: m.id, label: m.label, children: spec_sort(spec_into_nodes(m.children)) }
}

pub open spec fn spec_into_nodes(ms: Seq<NodeModel>) -> Seq<NodeModel>
    decreases ms, 0int,
{
    if ms.len() == 0 {
        Seq::<NodeModel>::empty()
    } else {
        seq![spec_into_node(ms.first())].add(spec_into_nodes(ms.drop_first()))
    }
}

/// The finished forms, one per model, in order.
proof fn lemma_into_nodes(ms: Seq<NodeModel>)
    ensures
        spec_into_nodes(ms).len() == ms.len(),
        forall|k: int|
            0 <= k < ms.len() ==> #[trigger] spec_into_nodes(ms)[k] == spec_into_node(ms[k]),
    decreases ms.len(),
{
    if ms.len() > 0 {
        lemma_into_nodes(ms.drop_first());
        assert(forall|k: int|
            0 < k < ms.len() ==> #[trigger] spec_into_nodes(ms)[k] == spec_into_nodes(
                ms.drop_first(),
            )[k - 1]);
        assert(forall|k: int| 0 < k < ms.len() ==> ms.drop_first()[k - 1] == #[trigger] ms[k]);
    }
}

/// Place a finished node into a display-ordered list.
fn sorted_insert_node(kids: &mut Vec<FileNode>, n: FileNode)
    ensures
        FileNode::models(final(kids)@) == spec_sorted_insert(
            FileNode::models(old(kids)@),
            n.model(),
        ),
{
    proof {
        lemma_fnode_models(kids@);
        assert(FileNode::models(kids@).skip(0) =~= FileNode::models(kids@));
    }
    let ghost ms = FileNode::models(kids@);
    let mut i: usize = 0;
    while i < kids.len()
        invariant
            i <= kids@.len(),
            kids@ == old(kids)@,
            ms == FileNode::models(kids@),
            ms.len() == kids@.len(),
            forall|k: int| 0 <= k < ms.len() ==> #[trigger] ms[k] == kids@[k].model(),
            spec_sorted_insert(ms, n.model()) == ms.take(i as int).add(
                spec_sorted_insert(ms.skip(i as int), n.model()),
            ),
            forall|k: int|
                0 <= k < i ==> !(spec_model_cmp(#[trigger] ms[k], n.model()) is Greater),
        decreases kids@.len() - i,
    {
        proof {
            assert(ms.skip(i as int).first() == ms[i as int]);
            assert(ms.skip(i as int).drop_first() =~= ms.skip(i as int + 1));
        }
        let c = FileNode::cmp(&kids[i], &n);
        proof {
            lemma_fnode_models(kids@[i as int].children@);
            lemma_fnode_models(n.children@);
            assert(spec_node_cmp(kids@[i as int], n) == spec_model_cmp(
                kids@[i as int].model(),
                n.model(),
            ));
        }
        if matches!(c, core::cmp::Ordering::Greater) {
            proof {
                assert(spec_sorted_insert(ms.skip(i as int), n.model()) == seq![n.model()].add(
                    ms.skip(i as int),
                ));
            }
            kids.insert(i, n);
            proof {
                assert(kids@ =~= old(kids)@.insert(i as int, n));
                lemma_fnode_models(kids@);
                assert(FileNode::models(kids@) =~= ms.take(i as int).add(
                    seq![n.model()].add(ms.skip(i as int)),
                ));
            }
            return ;
        }
        proof {
            assert(ms.take(i as int + 1) =~= ms.take(i as int).push(ms[i as int]));
            assert(ms.take(i as int).add(
                seq![ms[i as int]].add(spec_sorted_insert(ms.skip(i as int + 1), n.model())),
            ) =~= ms.take(i as int + 1).add(spec_sorted_insert(ms.skip(i as int + 1), n.model())));
        }
        i += 1;
    }
    proof {
        assert(ms.skip(i as int) =~= Seq::<NodeModel>::empty());
    }
    kids.push(n);
    proof {
        lemma_fnode_models(kids@);
        assert(FileNode::models(kids@) =~= ms.take(ms.len() as int).add(seq![n.model()]));
        assert(ms.take(ms.len() as int) =~= ms);
    }
}

impl FileNodeBuilder {
    /// Finish the tree: convert every child and lay each directory's
    /// children out in display order — directories first, then by label.
    pub fn into_node(self) -> (r: FileNode)
        ensures
            r.model() == spec_into_node(self.model()),
        decreases self,
    {
        let FileNodeBuilder { id, label, mut children } = self;
        let ghost children0 = children@;
        let ghost ms0 = FileNodeBuilder::models(children0);
        let mut kids: Vec<FileNode> = Vec::new();
        let ghost mut processed: Seq<NodeModel> = Seq::empty();
        let ghost mut consumed: int = 0;
        proof {
            lemma_models(children0);
            assert(children@ =~= children0.skip(0));
            assert(processed.add(FileNodeBuilder::models(children@)) =~= ms0);
            assert(spec_into_nodes(processed) =~= Seq::<NodeModel>::empty());
            assert(FileNode::models(kids@) =~= spec_sort(spec_into_nodes(processed)));
        }
        while children.len() > 0
            invariant
                0 <= consumed <= children0.len(),
                children0 == self.children@,
                children@ == children0.skip(consumed),
                processed.add(FileNodeBuilder::models(children@)) == ms0,
                FileNode::models(kids@) == spec_sort(spec_into_nodes(processed)),
            decreases children@.len(),
        {
            let ghost before = children@;
            let c = children.remove(0);
            proof {
                lemma_models(before);
                lemma_models(children@);
                assert(children@ =~= before.drop_first());
                assert(c == children0[consumed]);
                assert(children@ =~= children0.skip(consumed + 1));
                consumed = consumed + 1;
                assert(FileNodeBuilder::models(before) =~= seq![c.model()].add(
                    FileNodeBuilder::models(children@),
                ));
                assert(processed.push(c.model()).add(FileNodeBuilder::models(children@))
                    =~= processed.add(FileNodeBuilder::models(before)));
                assert(decreases_to!(self => self.children));
                assert(decreases_to!(self.children => self.children@));
                assert(decreases_to!(self.children@ => c));
            }
            let n = c.into_node();
            sorted_insert_node(&mut kids, n);
            proof {
                let processed2 = processed.push(c.model());
                lemma_into_nodes(processed2);
                lemma_into_nodes(processed);
                assert(spec_into_nodes(processed2).drop_last() =~= spec_into_nodes(processed)) by {
                    assert(forall|k: int|
                        0 <= k < processed.len() ==> #[trigger] processed2[k] == processed[k]);
                }
                assert(spec_into_nodes(processed2).last() == spec_into_node(c.model()));
                assert(spec_sort(spec_into_nodes(processed2)) == spec_sorted_insert(
                    spec_sort(spec_into_nodes(processed2).drop_last()),
                    spec_into_nodes(processed2).last(),
                ));
                processed = processed2;
            }
        }
        proof {
            assert(FileNodeBuilder::models(children@) =~= Seq::<NodeModel>::empty());
            assert(processed.add(Seq::<NodeModel>::empty()) =~= processed);
            assert(processed == ms0);
        }
        let r = FileNode { id, label, children: kids };
        proof {
            assert(r.model() =~= spec_into_node(
                NodeModel { id: id as int, label: r.label@, children: ms0 },
            ));
        }
        r
    }
}

/// The display order of two sibling nodes: directories before files, and
/// within each kind by label.
pub open spec fn spec_node_cmp(a: FileNode, b: FileNode) -> core::cmp::Ordering {
    let a_is_file = a.children@.len() == 0;
    let b_is_file = b.children@.len() == 0;
    if a_is_file && !b_is_file {
        core::cmp::Ordering::Greater
    } else if !a_is_file && b_is_file {
        core::cmp::Ordering::Less
    } else {
        crate::spec_lex_cmp(a.label@, b.label@)
    }
}

impl FileNode {
    /// Default display sort: directories first, then files, both by label.
    pub fn cmp(a: &FileNode, b: &FileNode) -> (r: core::cmp::Ordering)
        ensures
            r == spec_node_cmp(*a, *b),
    {
        let a_is_file = a.children.len() == 0;
        let b_is_file = b.children.len() == 0;
        if a_is_file && !b_is_file {
            core::cmp::Ordering::Greater
        } else if !a_is_file && b_is_file {
            core::cmp::Ordering::Less
        } else {
            crate::str_lex_cmp(a.label.as_str(), b.label.as_str())
        }
    }
}

} // verus!
