//! The textual part of path normalization, and the order of directory
//! listings. Resolving a path against the filesystem is the caller's part.

use vstd::prelude::*;
use crate::order::{is_ranked, sort_ranked};
use crate::records::DirectoryEntry;
use crate::store::CoreError;
use crate::text::{is_blank, trim, trimmed};

verus! {

/// The sequence without its leading `~` characters.
pub open spec fn strip_tildes(s: Seq<char>) -> Seq<char>
    decreases s.len(),
{
    if s.len() > 0 && s[0] == '~' {
        strip_tildes(s.subrange(1, s.len() as int))
    } else {
        s
    }
}

/// `rest` placed under the directory `home`, with one separator between.
pub open spec fn joined(home: Seq<char>, rest: Seq<char>) -> Seq<char> {
    let tail = if rest.len() > 0 && rest[0] == '/' {
        rest.subrange(1, rest.len() as int)
    } else {
        rest
    };
    if tail.len() == 0 {
        home
    } else if home.len() > 0 && home[home.len() - 1] == '/' {
        home + tail
    } else {
        home + seq!['/'] + tail
    }
}

/// The trimmed input, with a leading `~` replaced by the home directory
/// where one is known.
pub open spec fn expanded(input: Seq<char>, home: Option<Seq<char>>) -> Seq<char> {
    let t = trimmed(input);
    if t.len() > 0 && t[0] == '~' {
        match home {
            Some(h) => joined(h, strip_tildes(t)),
            None => t,
        }
    } else {
        t
    }
}

/// Relies on `dirs::home_dir`: the current user's home directory, where the
/// platform reports one. Nothing is known of the value.
#[verifier::external_body]
fn home_dir() -> (r: Option<String>) {
    match dirs::home_dir() {
        Some(p) => Some(p.display().to_string()),
        None => None,
    }
}

/// Trims the input, refuses it where it is blank, and expands a leading `~`
/// against `home`.
pub fn expand_path(input: &str, home: Option<&str>) -> (r: Result<String, CoreError>)
    ensures
        r is Err <==> is_blank(input@),
        r is Err ==> r == Err::<String, CoreError>(CoreError::EmptyPath),
        r matches Ok(p) ==> p@ == expanded(
            input@,
            match home {
                Some(h) => Some(h@),
                None => None,
            },
        ),
{
    let t = trim(input);
    let n = t.unicode_len();
    if n == 0 {
        return Err(CoreError::EmptyPath);
    }
    if t.as_str().get_char(0) != '~' {
        return Ok(t);
    }
    let h = match home {
        Some(h) => h,
        None => {
            return Ok(t);
        },
    };
    let mut k: usize = 0;
    assert(t@.subrange(0, n as int) =~= t@);
    while k < n && t.as_str().get_char(k) == '~'
        invariant
            n == t@.len(),
            k <= n,
            strip_tildes(t@.subrange(k as int, n as int)) == strip_tildes(t@),
        decreases n - k,
    {
        assert(t@.subrange(k as int, n as int).subrange(1, n - k) =~= t@.subrange(k + 1, n as int));
        k = k + 1;
    }
    let ghost rest = t@.subrange(k as int, n as int);
    assert(strip_tildes(rest) == rest);
    let mut start = k;
    if k < n && t.as_str().get_char(k) == '/' {
        start = k + 1;
    }
    let tail = t.as_str().substring_char(start, n);
    assert(tail@ =~= if rest.len() > 0 && rest[0] == '/' {
        rest.subrange(1, rest.len() as int)
    } else {
        rest
    });
    let hn = h.unicode_len();
    let mut out = String::from_str(h);
    if tail.unicode_len() == 0 {
        return Ok(out);
    }
    if hn == 0 || h.get_char(hn - 1) != '/' {
        out.append("/");
        proof {
            reveal_strlit("/");
        }
        assert("/"@ =~= seq!['/']);
    }
    out.append(tail);
    Ok(out)
}

/// Trims the input, refuses it where it is blank, and expands a leading `~`
/// against the current user's home directory.
pub fn normalize_path(input: &str) -> (r: Result<String, CoreError>)
    ensures
        r is Err <==> is_blank(input@),
        r is Err ==> r == Err::<String, CoreError>(CoreError::EmptyPath),
        r matches Ok(p) ==> exists|home: Option<Seq<char>>| p@ == #[trigger] expanded(input@, home),
{
    let home = home_dir();
    match home {
        Some(h) => expand_path(input, Some(h.as_str())),
        None => expand_path(input, None),
    }
}

/// The entries of a directory, alphabetically by lower-cased name.
pub fn list_directory(entries: Vec<DirectoryEntry>) -> (r: Vec<DirectoryEntry>)
    ensures
        is_ranked(r@),
        r@.to_multiset() == entries@.to_multiset(),
{
    sort_ranked(entries)
}

} // verus!
