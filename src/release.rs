//! Whether a published release differs from the running version.

use vstd::prelude::*;

use crate::text::{chars_of, equals_str, string_of};

verus! {

/// A release that differs from the running version.
#[derive(Debug)]
pub struct UpdateInfo {
    pub version: String,
    pub release_notes: String,
    pub download_url: String,
}

/// `s` without its leading `v`s.
pub open spec fn without_leading_v(s: Seq<char>) -> Seq<char>
    decreases s.len(),
{
    if s.len() > 0 && s[0] == 'v' {
        without_leading_v(s.drop_first())
    } else {
        s
    }
}

/// The text of an optional field; empty where it is absent.
pub open spec fn text_or_empty(t: Option<String>) -> Seq<char> {
    match t {
        Some(s) => s@,
        None => Seq::empty(),
    }
}

/// `s` without its leading `v`s.
fn strip_leading_v(s: &Vec<char>) -> (r: usize)
    ensures
        r <= s.len(),
        s@.subrange(r as int, s.len() as int) == without_leading_v(s@),
{
    let n = s.len();
    let mut i: usize = 0;
    assert(s@.subrange(0, n as int) =~= s@);
    while i < n && s[i] == 'v'
        invariant
            n == s.len(),
            i <= n,
            without_leading_v(s@) == without_leading_v(s@.subrange(i as int, n as int)),
        decreases n - i,
    {
        assert(s@.subrange(i as int, n as int).drop_first() =~= s@.subrange(i + 1, n as int));
        i += 1;
    }
    i
}

/// The update to offer when the latest release is tagged `latest_tag` and the
/// running version is `current`: none when the tag without its leading `v`s is
/// the current version, else the release with its notes and address (empty where
/// absent).
pub fn update_offer(
    latest_tag: String,
    release_notes: Option<String>,
    download_url: Option<String>,
    current: &str,
) -> (r: Option<UpdateInfo>)
    ensures
        r is None <==> without_leading_v(latest_tag@) == current@,
        r matches Some(info) ==> info.version == latest_tag && info.release_notes@ == text_or_empty(
            release_notes,
        ) && info.download_url@ == text_or_empty(download_url),
{
    let tag = chars_of(latest_tag.as_str());
    let start = strip_leading_v(&tag);
    let stripped = string_of(&tag, start, tag.len());
    if equals_str(&chars_of(stripped.as_str()), current) {
        return None;
    }
    let notes = match release_notes {
        Some(s) => s,
        None => String::new(),
    };
    let url = match download_url {
        Some(s) => s,
        None => String::new(),
    };
    Some(UpdateInfo { version: latest_tag, release_notes: notes, download_url: url })
}

} // verus!
