//! Static web assets: which file a request may reach, its type, and when a
//! cached copy can be served. Reading files and the clock is left to the caller.
use vstd::prelude::*;

use chrono::{TimeZone, Utc};

use crate::text::{chars_of, owned, str_eq};

verus! {

/// A static file held in memory.
#[derive(Clone)]
pub struct Asset {
    pub data: Vec<u8>,
    pub mime: String,
    pub mtime: String,
}

impl Asset {
    pub fn new(data: Vec<u8>, mime: &str, mtime: &str) -> (r: Self)
        ensures
            r.data@ == data@,
            r.mime@ == mime@,
            r.mtime@ == mtime@,
    {
        Self { data, mime: owned(mime), mtime: owned(mtime) }
    }
}

/// The HTTP date (`Tue, 15 Nov 1994 12:45:26 GMT`) of `secs` seconds after the
/// Unix epoch, in UTC; `None` outside the range of dates chrono can hold.
pub uninterp spec fn http_date_text(secs: int) -> Option<Seq<char>>;

pub open spec fn opt_string_view(r: Option<String>) -> Option<Seq<char>> {
    match r {
        Some(s) => Some(s@),
        None => None,
    }
}

/// Calls `Utc.timestamp_opt(secs, 0)` and formats the time with chrono as
/// `%a, %d %b %Y %T GMT`. Trusted: the text is the one named `http_date_text`,
/// and every time from the epoch to the end of the year 9999 is in chrono's range
/// (it holds years up to 262142); the calendar itself is not written out.
#[verifier::external_body]
fn http_date(secs: i64) -> (r: Option<String>)
    ensures
        opt_string_view(r) == http_date_text(secs as int),
        0 <= secs <= 253_402_300_799 ==> r is Some,
{
    Utc.timestamp_opt(secs, 0).single().map(|t| t.format("%a, %d %b %Y %T GMT").to_string())
}

/// The `Last-Modified` text of a file changed `secs` seconds after the Unix epoch
/// (as `Tue, 15 Nov 1994 12:45:26 GMT`); `None` for a time chrono cannot hold.
pub fn last_modified(secs: u64) -> (r: Option<String>)
    ensures
        opt_string_view(r) == (if secs <= i64::MAX {
            http_date_text(secs as int)
        } else {
            None
        }),
        secs <= 253_402_300_799 ==> r is Some,
{
    if secs <= 0x7fff_ffff_ffff_ffff {
        http_date(secs as i64)
    } else {
        None
    }
}

/// The file system path of `path` below the web root, before it is resolved.
pub fn candidate_path(root: &str, path: &str) -> (r: String)
    ensures
        r@ == root@ + "/"@ + path@,
{
    let mut out = owned(root);
    out.append("/");
    out.append(path);
    out
}

/// `s` starts with `prefix`.
pub open spec fn starts_with(s: Seq<char>, prefix: Seq<char>) -> bool {
    prefix.len() <= s.len() && s.take(prefix.len() as int) == prefix
}

/// `path` is the directory `root` itself or lies inside it: the root is followed
/// by a `/` (or ends in one), so a sibling such as `/srv/www2` of the root
/// `/srv/www` is not inside it.
pub open spec fn inside_root(root: Seq<char>, path: Seq<char>) -> bool {
    ||| path == root
    ||| starts_with(path, root + "/"@)
    ||| (root.len() > 0 && root.last() == '/' && starts_with(path, root))
}

/// A resolved path may be served only when it is the web root or lies inside it;
/// every path goes through this check, which keeps requests from reaching outside
/// the root.
pub fn within_root(root: &str, canonical: &str) -> (r: Option<String>)
    ensures
        match r {
            Some(p) => inside_root(root@, canonical@) && p@ == canonical@,
            None => !inside_root(root@, canonical@),
        },
{
    proof {
        reveal_strlit("/");
    }
    let s = chars_of(canonical);
    let p = chars_of(root);
    let ghost slash = root@ + "/"@;
    assert(slash =~= root@.push('/'));
    if p.len() > s.len() {
        return None;
    }
    let m = p.len();
    let mut k: usize = 0;
    while k < m
        invariant
            m == p.len() <= s.len(),
            s@ == canonical@,
            p@ == root@,
            slash == root@.push('/'),
            k <= m,
            forall|j: int| 0 <= j < k ==> s@[j] == p@[j],
        decreases m - k,
    {
        if s[k] != p[k] {
            assert(canonical@.take(m as int)[k as int] != root@[k as int]);
            assert(!starts_with(canonical@, slash)) by {
                if starts_with(canonical@, slash) {
                    assert(slash[k as int] == root@[k as int]);
                    assert(canonical@.take(slash.len() as int)[k as int] == slash[k as int]);
                    assert(canonical@[k as int] == root@[k as int]);
                }
            }
            return None;
        }
        k += 1;
    }
    assert(canonical@.take(m as int) =~= root@);
    if s.len() == m {
        assert(canonical@ =~= root@);
        return Some(owned(canonical));
    }
    if m > 0 && p[m - 1] == '/' {
        return Some(owned(canonical));
    }
    if s[m] == '/' {
        assert(canonical@.take(slash.len() as int) =~= slash);
        Some(owned(canonical))
    } else {
        assert(!starts_with(canonical@, slash)) by {
            if starts_with(canonical@, slash) {
                assert(canonical@.take(slash.len() as int)[m as int] == slash[m as int]);
            }
        }
        assert(canonical@ != root@);
        None
    }
}

/// The content types known from the file extension alone.
pub open spec fn mime_shortcut_spec(extension: Seq<char>) -> Option<Seq<char>> {
    if extension == "js"@ {
        Some("application/javascript"@)
    } else if extension == "json"@ {
        Some("application/json"@)
    } else if extension == "css"@ {
        Some("text/css"@)
    } else {
        None
    }
}

/// The content type for a file extension, when it is one of the shortcuts; other
/// files have their type inferred from their content.
pub fn mime_shortcut(extension: &str) -> (r: Option<String>)
    ensures
        match r {
            Some(m) => mime_shortcut_spec(extension@) == Some(m@),
            None => mime_shortcut_spec(extension@) is None,
        },
{
    if str_eq(extension, "js") {
        Some(owned("application/javascript"))
    } else if str_eq(extension, "json") {
        Some(owned("application/json"))
    } else if str_eq(extension, "css") {
        Some(owned("text/css"))
    } else {
        None
    }
}

/// What to do for a request of a static asset.
#[derive(Debug, PartialEq, Eq)]
pub enum AssetLookup {
    /// Serve the cached copy: the file has not changed.
    UseCached,
    /// The file is gone: drop the cached copy and answer nothing.
    Evict,
    /// Read the file, cache it and serve it.
    Load,
    /// There is no such file.
    Missing,
}

pub open spec fn lookup_decision(cached_mtime: Option<Seq<char>>, mtime: Seq<char>, is_file: bool) -> AssetLookup {
    match cached_mtime {
        Some(m) => if m == mtime {
            AssetLookup::UseCached
        } else if !is_file {
            AssetLookup::Evict
        } else {
            AssetLookup::Load
        },
        None => if is_file {
            AssetLookup::Load
        } else {
            AssetLookup::Missing
        },
    }
}

/// Decides how to answer a request for an asset: a cached copy is served while the
/// file's modification time is unchanged; otherwise the file is read again, or the
/// copy dropped when the file is gone.
pub fn asset_lookup(cached_mtime: Option<&str>, mtime: &str, is_file: bool) -> (r: AssetLookup)
    ensures
        r == lookup_decision(
            match cached_mtime {
                Some(m) => Some(m@),
                None => None,
            },
            mtime@,
            is_file,
        ),
{
    match cached_mtime {
        Some(m) => {
            if str_eq(m, mtime) {
                AssetLookup::UseCached
            } else if !is_file {
                AssetLookup::Evict
            } else {
                AssetLookup::Load
            }
        },
        None => {
            if is_file {
                AssetLookup::Load
            } else {
                AssetLookup::Missing
            }
        },
    }
}


/// A path is inside the root exactly when it begins with the root and either ends
/// there, continues with a `/`, or the root itself ends with a `/`: so a sibling
/// directory whose name merely begins with the root's name is outside.
pub proof fn lemma_inside_root_boundary(root: Seq<char>, path: Seq<char>)
    ensures
        inside_root(root, path) <==> (root.len() <= path.len() && path.take(root.len() as int)
            == root && (path.len() == root.len() || path[root.len() as int] == '/' || (root.len()
            > 0 && root[root.len() - 1] == '/'))),
{
    reveal_strlit("/");
    let slash = root + "/"@;
    assert(slash =~= root.push('/'));
    if root.len() <= path.len() && path.take(root.len() as int) == root {
        if path.len() == root.len() {
            assert(path =~= root);
        } else if path[root.len() as int] == '/' {
            assert(path.take(slash.len() as int) =~= slash);
        }
    }
    if starts_with(path, slash) {
        assert(path.take(root.len() as int) =~= root) by {
            assert forall|i: int| 0 <= i < root.len() implies path.take(root.len() as int)[i] == root[i] by {
                assert(path.take(slash.len() as int)[i] == slash[i]);
            }
        }
        assert(path.take(slash.len() as int)[root.len() as int] == slash[root.len() as int]);
    }
}

/// A request for an asset is answered from the cache exactly when the file's
/// modification time is the cached one; otherwise a file that exists is read
/// again, a cached copy of a file that is gone is dropped, and a file that was
/// never cached and does not exist is missing.
pub proof fn lemma_asset_lookup_cases(cached: Option<Seq<char>>, mtime: Seq<char>, is_file: bool)
    ensures
        (lookup_decision(cached, mtime, is_file) is UseCached) <==> cached == Some(mtime),
        cached != Some(mtime) && is_file ==> lookup_decision(cached, mtime, is_file) is Load,
        cached is Some && cached != Some(mtime) && !is_file ==> lookup_decision(cached, mtime, is_file) is Evict,
        cached is None && !is_file ==> lookup_decision(cached, mtime, is_file) is Missing,
{
}

} // verus!
