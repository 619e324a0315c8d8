//! Core logic of a torrent-to-cloud download orchestrator.
//!
//! A torrent's file list is split into size-bounded parts; each part is
//! downloaded through qBittorrent and then copied to a remote destination
//! through Rclone. This crate holds the verified heart of that system: the
//! task model and store, the partitioner, the per-task state machine that a
//! poller drives, and the recovery operations. The HTTP adapters that speak
//! to the two services live outside and feed plain values in.

pub mod api;
pub mod auth;
pub mod bencode;
pub mod config;
pub mod digest;
pub mod engine;
pub mod errors;
pub mod hex;
pub mod ingest;
pub mod multipart;
pub mod partition;
pub mod qb;
pub mod recovery;
pub mod store;
pub mod task;
pub mod upload;
pub mod validate;

use vstd::prelude::*;

verus! {

/// Compare two string slices by their characters.
pub fn str_eq(a: &str, b: &str) -> (r: bool)
    ensures
        r == (a@ == b@),
{
    let x = String::from_str(a);
    let y = String::from_str(b);
    x == y
}

/// The Unicode White_Space characters: the set trimmed from the ends of a
/// configured path or host.
pub open spec fn is_unicode_whitespace(c: char) -> bool {
    ||| c == ' '
    ||| c == '\t'
    ||| c == '\n'
    ||| c == '\r'
    ||| c == '\u{000B}'
    ||| c == '\u{000C}'
    ||| c == '\u{0085}'
    ||| c == '\u{00A0}'
    ||| c == '\u{1680}'
    ||| ('\u{2000}' <= c && c <= '\u{200A}')
    ||| c == '\u{2028}'
    ||| c == '\u{2029}'
    ||| c == '\u{202F}'
    ||| c == '\u{205F}'
    ||| c == '\u{3000}'
}

/// The position of the first non-whitespace character at or after `i`.
pub open spec fn ws_prefix_end(s: Seq<char>, i: int) -> int
    decreases s.len() - i,
{
    if i < 0 || i >= s.len() {
        i
    } else if is_unicode_whitespace(s[i]) {
        ws_prefix_end(s, i + 1)
    } else {
        i
    }
}

/// The position after the last non-whitespace character before `j`.
pub open spec fn ws_suffix_start(s: Seq<char>, j: int) -> int
    decreases j,
{
    if j <= 0 || j > s.len() {
        j
    } else if is_unicode_whitespace(s[j - 1]) {
        ws_suffix_start(s, j - 1)
    } else {
        j
    }
}

/// The suffix scan never moves right, and never past the start.
proof fn lemma_ws_suffix_le(s: Seq<char>, j: int)
    requires
        0 <= j <= s.len(),
    ensures
        0 <= ws_suffix_start(s, j) <= j,
    decreases j,
{
    if j > 0 && is_unicode_whitespace(s[j - 1]) {
        lemma_ws_suffix_le(s, j - 1);
    }
}

/// The string with surrounding whitespace removed.
pub open spec fn spec_trim(s: Seq<char>) -> Seq<char> {
    let a = ws_prefix_end(s, 0);
    let b = ws_suffix_start(s, s.len() as int);
    if a <= b {
        s.subrange(a, b)
    } else {
        Seq::<char>::empty()
    }
}

/// Whether this character is trimmed from a path's or host's ends.
fn is_whitespace_char(c: char) -> (r: bool)
    ensures
        r == is_unicode_whitespace(c),
{
    c == ' ' || c == '\t' || c == '\n' || c == '\r' || c == '\u{000B}' || c == '\u{000C}' || c
        == '\u{0085}' || c == '\u{00A0}' || c == '\u{1680}' || ('\u{2000}' <= c && c
        <= '\u{200A}') || c == '\u{2028}' || c == '\u{2029}' || c == '\u{202F}' || c
        == '\u{205F}' || c == '\u{3000}'
}

/// Normalize a configured path or host: trim surrounding whitespace, then
/// remove at most one trailing slash, e.g. `"http://localhost:8080/"`
/// becomes `"http://localhost:8080"`.
pub fn remove_slash(path_or_host: &str) -> (r: String)
    ensures
        r@ == (if spec_trim(path_or_host@).len() > 0 && spec_trim(path_or_host@).last() == '/' {
            spec_trim(path_or_host@).drop_last()
        } else {
            spec_trim(path_or_host@)
        }),
{
    let n = path_or_host.unicode_len();
    let mut start: usize = 0;
    while start < n && is_whitespace_char(path_or_host.get_char(start))
        invariant
            start <= n,
            n == path_or_host@.len(),
            ws_prefix_end(path_or_host@, 0) == ws_prefix_end(path_or_host@, start as int),
        decreases n - start,
    {
        start += 1;
    }
    proof {
        assert(ws_prefix_end(path_or_host@, start as int) == start as int);
    }
    let mut end: usize = n;
    while end > start && is_whitespace_char(path_or_host.get_char(end - 1))
        invariant
            start <= end <= n,
            n == path_or_host@.len(),
            ws_prefix_end(path_or_host@, 0) == start as int,
            ws_suffix_start(path_or_host@, n as int) == ws_suffix_start(
                path_or_host@,
                end as int,
            ),
        decreases end,
    {
        end -= 1;
    }
    proof {
        if end > start {
            assert(ws_suffix_start(path_or_host@, end as int) == end as int);
        } else {
            assert(end == start);
            lemma_ws_suffix_le(path_or_host@, end as int);
        }
    }
    if end <= start {
        proof {
            assert(spec_trim(path_or_host@) =~= Seq::<char>::empty());
        }
        return String::new();
    }
    let mut stop = end;
    proof {
        assert(spec_trim(path_or_host@) =~= path_or_host@.subrange(start as int, end as int));
    }
    if path_or_host.get_char(stop - 1) == '/' {
        stop -= 1;
        proof {
            assert(path_or_host@.subrange(start as int, end as int).last() == path_or_host@[
                end as int - 1]);
            assert(path_or_host@.subrange(start as int, stop as int) =~= path_or_host@.subrange(
                start as int,
                end as int,
            ).drop_last());
        }
    } else {
        proof {
            assert(path_or_host@.subrange(start as int, end as int).last() == path_or_host@[
                end as int - 1]);
        }
    }
    let r = path_or_host.substring_char(start, stop);
    String::from_str(r)
}

/// Lexicographic order on character strings, the order UTF-8 bytes sort in.
pub open spec fn spec_lex_cmp(a: Seq<char>, b: Seq<char>) -> core::cmp::Ordering
    decreases a.len(),
{
    if a.len() == 0 && b.len() == 0 {
        core::cmp::Ordering::Equal
    } else if a.len() == 0 {
        core::cmp::Ordering::Less
    } else if b.len() == 0 {
        core::cmp::Ordering::Greater
    } else if a.first() < b.first() {
        core::cmp::Ordering::Less
    } else if a.first() > b.first() {
        core::cmp::Ordering::Greater
    } else {
        spec_lex_cmp(a.drop_first(), b.drop_first())
    }
}

/// Two strings compare equal exactly when they are the same string.
pub proof fn lemma_lex_cmp_equal_iff(a: Seq<char>, b: Seq<char>)
    ensures
        (spec_lex_cmp(a, b) is Equal) <==> a == b,
    decreases a.len(),
{
    if a.len() == 0 && b.len() == 0 {
        assert(a =~= b);
    } else if a.len() > 0 && b.len() > 0 && a.first() == b.first() {
        lemma_lex_cmp_equal_iff(a.drop_first(), b.drop_first());
        if a.drop_first() == b.drop_first() {
            assert forall|i: int| 0 <= i < a.len() implies a[i] == b[i] by {
                if i > 0 {
                    assert(a.drop_first()[i - 1] == a[i]);
                    assert(b.drop_first()[i - 1] == b[i]);
                }
            }
            assert(a =~= b);
        }
        if a == b {
            assert(a.drop_first() =~= b.drop_first());
        }
    } else {
        if a == b {
            assert(a.len() == b.len());
            if a.len() > 0 {
                assert(a.first() == b.first());
            }
        }
    }
}

/// The order is antisymmetric: one string is below another exactly when the
/// other is above it.
pub proof fn lemma_lex_cmp_flip(a: Seq<char>, b: Seq<char>)
    ensures
        (spec_lex_cmp(a, b) is Less) <==> (spec_lex_cmp(b, a) is Greater),
    decreases a.len(),
{
    if a.len() > 0 && b.len() > 0 && a.first() == b.first() {
        lemma_lex_cmp_flip(a.drop_first(), b.drop_first());
    }
}

/// The order is transitive.
pub proof fn lemma_lex_cmp_trans(a: Seq<char>, b: Seq<char>, c: Seq<char>)
    requires
        spec_lex_cmp(a, b) is Less,
        spec_lex_cmp(b, c) is Less,
    ensures
        spec_lex_cmp(a, c) is Less,
    decreases a.len(),
{
    if a.len() == 0 {
        assert(b.len() > 0);
        assert(c.len() > 0);
    } else {
        assert(b.len() > 0);
        assert(c.len() > 0);
        if a.first() == b.first() && b.first() == c.first() {
            lemma_lex_cmp_trans(a.drop_first(), b.drop_first(), c.drop_first());
        }
    }
}

/// Compare two strings character by character.
pub fn str_lex_cmp(a: &str, b: &str) -> (r: core::cmp::Ordering)
    ensures
        r == spec_lex_cmp(a@, b@),
{
    let a_len = a.unicode_len();
    let b_len = b.unicode_len();
    let mut i: usize = 0;
    proof {
        assert(a@.skip(0) =~= a@);
        assert(b@.skip(0) =~= b@);
    }
    while i < a_len && i < b_len
        invariant
            i <= a@.len(),
            i <= b@.len(),
            a_len == a@.len(),
            b_len == b@.len(),
            spec_lex_cmp(a@, b@) == spec_lex_cmp(a@.skip(i as int), b@.skip(i as int)),
        decreases a@.len() - i,
    {
        proof {
            assert(a@.skip(i as int).first() == a@[i as int]);
            assert(b@.skip(i as int).first() == b@[i as int]);
            assert(a@.skip(i as int).drop_first() =~= a@.skip(i as int + 1));
            assert(b@.skip(i as int).drop_first() =~= b@.skip(i as int + 1));
        }
        let ca = a.get_char(i);
        let cb = b.get_char(i);
        if ca < cb {
            return core::cmp::Ordering::Less;
        }
        if cb < ca {
            return core::cmp::Ordering::Greater;
        }
        i += 1;
    }
    proof {
        if i == a_len {
            assert(a@.skip(i as int) =~= Seq::<char>::empty());
        }
        if i == b_len {
            assert(b@.skip(i as int) =~= Seq::<char>::empty());
        }
    }
    if a_len == b_len {
        core::cmp::Ordering::Equal
    } else if i == a_len {
        core::cmp::Ordering::Less
    } else {
        core::cmp::Ordering::Greater
    }
}

} // verus!

