//! Deciding whether a newer release exists, from what the release service
//! answered.
use vstd::prelude::*;
use crate::text::{
    chars_eq, chars_of, copy_range, find, find_exec, lemma_find, push_str, string_of, trim,
    trim_chars,
};

verus! {

/// The key before the release tag in the JSON answer.
pub const TAG_KEY: &'static str = "\"tag_name\":\"";

/// The tag in a JSON answer: what follows the first `"tag_name":"` up to the
/// next `"`; nothing when either is missing.
pub open spec fn json_tag(json: Seq<char>) -> Seq<char> {
    match find(json, TAG_KEY@) {
        None => seq![],
        Some(start) => {
            let rest = json.skip(start + TAG_KEY@.len());
            match find(rest, seq!['"']) {
                Some(end) => rest.take(end),
                None => seq![],
            }
        },
    }
}

/// The latest version named by the answer: on Windows the whole trimmed
/// answer, elsewhere the tag found in the trimmed JSON; one leading `v` dropped.
pub open spec fn latest_version(answer: Seq<char>, windows: bool) -> Seq<char> {
    let tag = if windows {
        trim(answer)
    } else {
        json_tag(trim(answer))
    };
    if tag.len() > 0 && tag[0] == 'v' {
        tag.drop_first()
    } else {
        tag
    }
}

pub fn parse_latest_version(answer: &str, windows: bool) -> (r: String)
    ensures
        r@ == latest_version(answer@, windows),
{
    let a = chars_of(answer);
    let t = trim_chars(a.as_slice());
    let tag: Vec<char> = if windows {
        t
    } else {
        let key = chars_of(TAG_KEY);
        let found = find_exec(t.as_slice(), key.as_slice());
        match found {
            None => Vec::new(),
            Some(start) => {
                assert(find(t@, key@) == Some(start as int));
                proof {
                    lemma_find(t@, key@);
                    assert(t@.len() == t.len());
                }
                let rest = copy_range(t.as_slice(), start + key.len(), t.len());
                assert(rest@ =~= t@.skip(start + key@.len()));
                let quote = vec!['"'];
                assert(quote@ =~= seq!['"']);
                let f2 = find_exec(rest.as_slice(), quote.as_slice());
                match f2 {
                    Some(end) => {
                        assert(find(rest@, quote@) == Some(end as int));
                        proof {
                            lemma_find(rest@, quote@);
                        }
                        let r = copy_range(rest.as_slice(), 0, end);
                        assert(r@ =~= rest@.take(end as int));
                        r
                    },
                    None => Vec::new(),
                }
            },
        }
    };
    if tag.len() > 0 && tag[0] == 'v' {
        let r = copy_range(tag.as_slice(), 1, tag.len());
        assert(r@ =~= tag@.drop_first());
        string_of(r.as_slice())
    } else {
        string_of(tag.as_slice())
    }
}

/// The outcome of an update check.
pub enum UpdateCheck {
    /// No version could be read from the answer.
    Unparsable,
    /// The running version is the latest.
    UpToDate,
    /// A different version is the latest.
    Available(String),
}

pub open spec fn update_check_matches(current: Seq<char>, answer: Seq<char>, windows: bool, r: UpdateCheck) -> bool {
    let latest = latest_version(answer, windows);
    if latest.len() == 0 {
        r is Unparsable
    } else if latest == current {
        r is UpToDate
    } else {
        r matches UpdateCheck::Available(v) && v@ == latest
    }
}

/// Decides, from the running version and the release service's answer,
/// whether to update.
pub fn check_for_update(current: &str, answer: &str, windows: bool) -> (r: UpdateCheck)
    ensures
        update_check_matches(current@, answer@, windows, r),
{
    let latest = parse_latest_version(answer, windows);
    let l = chars_of(latest.as_str());
    if l.len() == 0 {
        UpdateCheck::Unparsable
    } else if chars_eq(l.as_slice(), chars_of(current).as_slice()) {
        UpdateCheck::UpToDate
    } else {
        UpdateCheck::Available(latest)
    }
}

/// Where the latest release's binary of the given file name is downloaded from.
pub open spec fn download_url(file_name: Seq<char>) -> Seq<char> {
    "https://github.com/DevWizard-Vandan/radhe-ai/releases/latest/download/"@ + file_name
}

pub fn release_download_url(file_name: &str) -> (r: String)
    ensures
        r@ == download_url(file_name@),
{
    let mut v = chars_of("https://github.com/DevWizard-Vandan/radhe-ai/releases/latest/download/");
    push_str(&mut v, file_name);
    string_of(v.as_slice())
}

} // verus!
