//! Web addresses in the output of a command.
//!
//! An address starts at `http://` or `https://`, in any ASCII case, and runs to the next
//! whitespace, quote or closing bracket.

use vstd::prelude::*;

use crate::text;

verus! {

/// Whether a web address starts at position `i`.
pub open spec fn url_at(s: Seq<char>, i: int) -> bool {
    text::matches_at(s, "http://"@, i) || text::matches_at(s, "https://"@, i)
}

/// The first position at or after `from` at which a web address starts.
pub open spec fn next_url(s: Seq<char>, from: int) -> Option<int>
    decreases s.len() - from,
{
    if from >= s.len() {
        None
    } else if url_at(s, from) {
        Some(from)
    } else {
        next_url(s, from + 1)
    }
}

/// The number of characters of the scheme of the address at position `i`.
pub open spec fn scheme_len(s: Seq<char>, i: int) -> int {
    if text::matches_at(s, "http://"@, i) {
        "http://"@.len() as int
    } else {
        "https://"@.len() as int
    }
}

pub proof fn lemma_scheme_len(s: Seq<char>, i: int)
    requires
        url_at(s, i),
    ensures
        0 < scheme_len(s, i),
        i + scheme_len(s, i) <= s.len(),
{
    reveal_strlit("http://");
    reveal_strlit("https://");
}

/// The start of the next web address at or after `from`, with the length of its scheme.
pub fn next_web_url(s: &[char], from: usize) -> (r: Option<(usize, usize)>)
    requires
        from <= s@.len(),
    ensures
        match r {
            Some(found) => next_url(s@, from as int) == Some(found.0 as int) && found.1
                == scheme_len(s@, found.0 as int) && from <= found.0 && found.0 + found.1
                <= s@.len() && 0 < found.1,
            None => next_url(s@, from as int) is None,
        },
{
    let http = text::chars_of("http://");
    let https = text::chars_of("https://");
    let mut i: usize = from;
    while i < s.len()
        invariant
            from <= i <= s@.len(),
            http@ == "http://"@,
            https@ == "https://"@,
            next_url(s@, i as int) == next_url(s@, from as int),
        decreases s@.len() - i,
    {
        if text::stands_at(s, http.as_slice(), i) {
            proof {
                lemma_scheme_len(s@, i as int);
            }
            return Some((i, http.len()));
        }
        if text::stands_at(s, https.as_slice(), i) {
            proof {
                lemma_scheme_len(s@, i as int);
            }
            return Some((i, https.len()));
        }
        i += 1;
    }
    None
}

pub fn contains_web_url(s: &[char]) -> (r: bool)
    ensures
        r == (next_url(s@, 0) is Some),
{
    next_web_url(s, 0).is_some()
}

pub open spec fn ends_url(c: char) -> bool {
    text::is_space(c) || c == '"' || c == '\'' || c == '<' || c == '>' || c == ')' || c == ']' || c == '}'
}

pub fn is_url_terminator(c: char) -> (r: bool)
    ensures
        r == ends_url(c),
{
    text::is_whitespace(c) || c == '"' || c == '\'' || c == '<' || c == '>' || c == ')' || c == ']' || c
        == '}'
}

/// The first position at or after `from` that ends an address, or the length of the text.
pub open spec fn terminator_index(s: Seq<char>, from: int) -> int
    decreases s.len() - from,
{
    if from >= s.len() {
        s.len() as int
    } else if ends_url(s[from]) {
        from
    } else {
        terminator_index(s, from + 1)
    }
}

/// The position behind the address that starts at `start`.
pub open spec fn url_end(s: Seq<char>, start: int) -> int {
    terminator_index(s, start + 1)
}

fn find_url_end(s: &[char], start: usize) -> (r: usize)
    requires
        start < s@.len(),
    ensures
        r == url_end(s@, start as int),
        start < r <= s@.len(),
{
    let len: usize = s.len();
    let mut i: usize = start + 1;
    while i < len && !is_url_terminator(s[i])
        invariant
            start < i <= s@.len(),
            len == s@.len(),
            terminator_index(s@, i as int) == url_end(s@, start as int),
        decreases s@.len() - i,
    {
        i += 1;
    }
    i
}

/// Whether the text, trimmed, is one word that starts like a web address.
pub open spec fn plain_url(s: Seq<char>) -> bool {
    text::words_of(text::trimmed(s)).len() == 1 && url_at(text::trimmed(s), 0)
}

pub fn is_plain_web_url(s: &[char]) -> (r: bool)
    ensures
        r == plain_url(s@),
{
    let inner = text::trim(s);
    let pieces = text::words(inner);
    pieces.len() == 1 && (text::stands_at(inner, text::chars_of("http://").as_slice(), 0) || text::stands_at(
        inner,
        text::chars_of("https://").as_slice(),
        0,
    ))
}

/// Whether an address speaks of signing in, approving or pairing.
pub open spec fn action_url(url: Seq<char>) -> bool {
    ||| text::holds_ignoring_case(url, "login"@)
    ||| text::holds_ignoring_case(url, "sign-in"@)
    ||| text::holds_ignoring_case(url, "signin"@)
    ||| text::holds_ignoring_case(url, "oauth"@)
    ||| text::holds_ignoring_case(url, "authorize"@)
    ||| text::holds_ignoring_case(url, "approval"@)
    ||| text::holds_ignoring_case(url, "verification"@)
    ||| text::holds_ignoring_case(url, "verify"@)
    ||| text::holds_ignoring_case(url, "activate"@)
    ||| text::holds_ignoring_case(url, "activation"@)
    ||| text::holds_ignoring_case(url, "authenticate"@)
    ||| text::holds_ignoring_case(url, "authentication"@)
    ||| text::holds_ignoring_case(url, "authorization"@)
    ||| text::holds_ignoring_case(url, "consent"@)
    ||| text::holds_ignoring_case(url, "/device"@)
}

fn has_marker(url: &[char], marker: &str) -> (r: bool)
    ensures
        r == text::holds_ignoring_case(url@, marker@),
{
    text::contains_ascii_case_insensitive(url, text::chars_of(marker).as_slice())
}

fn is_action_url(url: &[char]) -> (r: bool)
    ensures
        r == action_url(url@),
{
    has_marker(url, "login") || has_marker(url, "sign-in") || has_marker(url, "signin")
        || has_marker(url, "oauth") || has_marker(url, "authorize") || has_marker(url, "approval")
        || has_marker(url, "verification") || has_marker(url, "verify") || has_marker(
        url,
        "activate",
    ) || has_marker(url, "activation") || has_marker(url, "authenticate") || has_marker(
        url,
        "authentication",
    ) || has_marker(url, "authorization") || has_marker(url, "consent") || has_marker(
        url,
        "/device",
    )
}

/// Whether some address at or after `cursor` is an action address. Each address is looked for
/// behind the end of the one before it.
pub open spec fn action_urls_from(s: Seq<char>, cursor: int) -> bool
    decreases s.len() - cursor,
{
    match next_url(s, cursor) {
        Some(u) => if 0 <= cursor <= u < url_end(s, u) <= s.len() {
            action_url(s.subrange(u, url_end(s, u))) || action_urls_from(s, url_end(s, u))
        } else {
            false
        },
        None => false,
    }
}

pub fn web_urls_have_action_markers(s: &[char]) -> (r: bool)
    ensures
        r == action_urls_from(s@, 0),
{
    let mut cursor: usize = 0;
    while cursor < s.len()
        invariant
            cursor <= s@.len(),
            action_urls_from(s@, cursor as int) == action_urls_from(s@, 0),
        decreases s@.len() - cursor,
    {
        match next_web_url(s, cursor) {
            None => {
                return false;
            },
            Some(found) => {
                let end = find_url_end(s, found.0);
                if is_action_url(vstd::slice::slice_subrange(s, found.0, end)) {
                    return true;
                }
                cursor = end;
            },
        }
    }
    false
}

/// The text from `cursor` on, with `[url]` in place of each web address.
pub open spec fn stripped_from(s: Seq<char>, cursor: int) -> Seq<char>
    decreases s.len() - cursor,
{
    match next_url(s, cursor) {
        Some(u) => if 0 <= cursor <= u < url_end(s, u) <= s.len() {
            s.subrange(cursor, u) + "[url]"@ + stripped_from(s, url_end(s, u))
        } else {
            s.skip(cursor)
        },
        None => s.skip(cursor),
    }
}

pub fn strip_web_urls(s: &[char]) -> (r: String)
    ensures
        r@ == stripped_from(s@, 0),
{
    let mut output = String::new();
    let mut cursor: usize = 0;
    proof {
        assert(output@ + stripped_from(s@, 0) =~= stripped_from(s@, 0));
    }
    while cursor < s.len()
        invariant
            cursor <= s@.len(),
            output@ + stripped_from(s@, cursor as int) == stripped_from(s@, 0),
        decreases s@.len() - cursor,
    {
        let ghost before = output@;
        match next_web_url(s, cursor) {
            None => {
                let tail = text::string_of(vstd::slice::slice_subrange(s, cursor, s.len()));
                output.append(tail.as_str());
                proof {
                    assert(tail@ =~= s@.skip(cursor as int));
                }
                return output;
            },
            Some(found) => {
                let end = find_url_end(s, found.0);
                let head = text::string_of(vstd::slice::slice_subrange(s, cursor, found.0));
                output.append(head.as_str());
                output.append("[url]");
                proof {
                    assert(before + (head@ + "[url]"@ + stripped_from(s@, end as int)) =~= output@
                        + stripped_from(s@, end as int));
                }
                cursor = end;
            },
        }
    }
    proof {
        assert(output@ + stripped_from(s@, cursor as int) =~= output@);
    }
    output
}

/// Keys whose address values describe media and ask nothing of the user.
pub open spec fn metadata_key(key: Seq<char>) -> bool {
    ||| key == "webpage_url"@
    ||| key == "original_url"@
    ||| key == "channel_url"@
    ||| key == "uploader_url"@
    ||| key == "thumbnail"@
    ||| key == "thumbnail_url"@
    ||| key == "manifest"@
    ||| key == "manifest_url"@
}

pub fn safe_metadata_url_key(key: &str) -> (r: bool)
    ensures
        r == metadata_key(key@),
{
    text::text_is(key, "webpage_url") || text::text_is(key, "original_url") || text::text_is(key, "channel_url")
        || text::text_is(key, "uploader_url") || text::text_is(key, "thumbnail") || text::text_is(
        key,
        "thumbnail_url",
    ) || text::text_is(key, "manifest") || text::text_is(key, "manifest_url")
}

/// The position behind the last line feed before `end`.
pub open spec fn line_start(s: Seq<char>, end: int) -> int
    decreases end,
{
    if end <= 0 {
        0
    } else if s[end - 1] == '\n' {
        end
    } else {
        line_start(s, end - 1)
    }
}

fn find_line_start(s: &[char], end: usize) -> (r: usize)
    requires
        end <= s@.len(),
    ensures
        r == line_start(s@, end as int),
        r <= end,
{
    let mut i: usize = end;
    while i > 0 && s[i - 1] != '\n'
        invariant
            i <= end <= s@.len(),
            line_start(s@, i as int) == line_start(s@, end as int),
        decreases i,
    {
        i -= 1;
    }
    i
}

pub open spec fn key_char(c: char) -> bool {
    ('a' <= c <= 'z') || ('A' <= c <= 'Z') || ('0' <= c <= '9') || c == '_' || c == '.' || c == '-'
}

/// Whether the address at `u` is the value of a `key =` assignment on its line, for a metadata
/// key.
pub open spec fn assigned_url(s: Seq<char>, u: int) -> bool {
    let prefix = text::trimmed_end(s.subrange(line_start(s, u), u));
    let key = text::lowered(text::trimmed(prefix.drop_last()));
    &&& prefix.len() > 0
    &&& prefix.last() == '='
    &&& forall|i: int| 0 <= i < key.len() ==> key_char(key[i])
    &&& metadata_key(key)
}

fn all_key_chars(s: &[char]) -> (r: bool)
    ensures
        r == (forall|i: int| 0 <= i < s@.len() ==> key_char(s@[i])),
{
    let mut i: usize = 0;
    while i < s.len()
        invariant
            i <= s@.len(),
            forall|j: int| 0 <= j < i ==> key_char(s@[j]),
        decreases s@.len() - i,
    {
        let c = s[i];
        if !(('a' <= c && c <= 'z') || ('A' <= c && c <= 'Z') || ('0' <= c && c <= '9') || c == '_'
            || c == '.' || c == '-') {
            return false;
        }
        i += 1;
    }
    true
}

fn is_assigned_url(s: &[char], u: usize) -> (r: bool)
    requires
        u <= s@.len(),
    ensures
        r == assigned_url(s@, u as int),
{
    let start = find_line_start(s, u);
    let prefix = text::trim_end(vstd::slice::slice_subrange(s, start, u));
    if prefix.len() == 0 || prefix[prefix.len() - 1] != '=' {
        return false;
    }
    let bare = vstd::slice::slice_subrange(prefix, 0, prefix.len() - 1);
    proof {
        assert(bare@ =~= prefix@.drop_last());
    }
    let key = text::to_ascii_lowercase(text::trim(bare));
    all_key_chars(text::chars_of(key.as_str()).as_slice()) && safe_metadata_url_key(key.as_str())
}

/// Whether every address at or after `cursor` is an assigned metadata value. The search for the
/// next address goes on behind the scheme of the one before it.
pub open spec fn assigned_urls_from(s: Seq<char>, cursor: int) -> bool
    decreases s.len() - cursor,
{
    match next_url(s, cursor) {
        Some(u) => if 0 <= cursor <= u < u + scheme_len(s, u) <= s.len() {
            assigned_url(s, u) && assigned_urls_from(s, u + scheme_len(s, u))
        } else {
            false
        },
        None => true,
    }
}

/// Whether the text holds an address, and each of its addresses is an assigned metadata value.
pub open spec fn urls_are_assignment_values(s: Seq<char>) -> bool {
    next_url(s, 0) is Some && assigned_urls_from(s, 0)
}

pub fn all_web_urls_are_assignment_values(s: &[char]) -> (r: bool)
    ensures
        r == urls_are_assignment_values(s@),
{
    let mut cursor: usize = 0;
    let mut found_url = false;
    while cursor < s.len()
        invariant
            cursor <= s@.len(),
            assigned_urls_from(s@, cursor as int) == assigned_urls_from(s@, 0),
            found_url ==> next_url(s@, 0) is Some,
            !found_url ==> cursor == 0,
        decreases s@.len() - cursor,
    {
        match next_web_url(s, cursor) {
            None => {
                return found_url;
            },
            Some(found) => {
                found_url = true;
                if !is_assigned_url(s, found.0) {
                    return false;
                }
                cursor = found.0 + found.1;
            },
        }
    }
    found_url
}

} // verus!
