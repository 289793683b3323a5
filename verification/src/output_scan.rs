//! Decides whether the output of a successful command may be folded away.
//!
//! Machine-readable output often carries addresses as metadata. Those may be hidden as long as
//! nothing else in the output asks the user to act; a bare address, or one in prose, stays
//! visible, since sign-in and device links are often printed without an explanation.

use vstd::prelude::*;

use crate::json;
use crate::json::Json;
use crate::json::JsonTree;
use crate::text;
use crate::web_url;

verus! {

/// How a shell reads the characters at some point of a command line.
#[derive(Clone, Copy, PartialEq, Eq, Structural)]
pub enum Quote {
    Unquoted,
    Single,
    Double,
}

/// Whether a shell, reading `s` from `i` on in state `quote`, meets a control operator, a
/// comment, a redirection or a command substitution.
pub open spec fn shell_control_from(s: Seq<char>, i: int, quote: Quote) -> bool
    decreases s.len() - i,
{
    if i < 0 || i >= s.len() {
        false
    } else {
        let c = s[i];
        let opens_substitution = c == '$' && i + 1 < s.len() && s[i + 1] == '(';
        match quote {
            Quote::Unquoted => if c == '\\' {
                i + 2 <= s.len() && shell_control_from(s, i + 2, Quote::Unquoted)
            } else if c == '\'' {
                shell_control_from(s, i + 1, Quote::Single)
            } else if c == '"' {
                shell_control_from(s, i + 1, Quote::Double)
            } else if shell_control_char(c) || opens_substitution {
                true
            } else {
                shell_control_from(s, i + 1, Quote::Unquoted)
            },
            Quote::Single => if c == '\'' {
                shell_control_from(s, i + 1, Quote::Unquoted)
            } else {
                shell_control_from(s, i + 1, Quote::Single)
            },
            Quote::Double => if c == '"' {
                shell_control_from(s, i + 1, Quote::Unquoted)
            } else if c == '`' || opens_substitution {
                true
            } else if c == '\\' && i + 1 < s.len() && escapable_in_double_quotes(s[i + 1]) {
                shell_control_from(s, i + 2, Quote::Double)
            } else {
                shell_control_from(s, i + 1, Quote::Double)
            },
        }
    }
}

pub open spec fn shell_control_char(c: char) -> bool {
    c == '\n' || c == '\r' || c == ';' || c == '|' || c == '&' || c == '#' || c == '`' || c == '<'
        || c == '>'
}

pub open spec fn escapable_in_double_quotes(c: char) -> bool {
    c == '$' || c == '`' || c == '"' || c == '\\' || c == '\n'
}

pub fn has_unquoted_shell_control(command: &str) -> (r: bool)
    ensures
        r == shell_control_from(command@, 0, Quote::Unquoted),
{
    let chars = text::chars_of(command);
    let len: usize = chars.len();
    let mut quote = Quote::Unquoted;
    let mut i: usize = 0;
    while i < len
        invariant
            chars@ == command@,
            len == chars@.len(),
            i <= len,
            shell_control_from(command@, i as int, quote) == shell_control_from(
                command@,
                0,
                Quote::Unquoted,
            ),
        decreases len - i,
    {
        let c = chars[i];
        let opens_substitution = c == '$' && i + 1 < len && chars[i + 1] == '(';
        let mut step: usize = 1;
        match quote {
            Quote::Unquoted => {
                if c == '\\' {
                    step = if i + 1 < len {
                        2
                    } else {
                        1
                    };
                } else if c == '\'' {
                    quote = Quote::Single;
                } else if c == '"' {
                    quote = Quote::Double;
                } else if c == '\n' || c == '\r' || c == ';' || c == '|' || c == '&' || c == '#'
                    || c == '`' || c == '<' || c == '>' || opens_substitution {
                    return true;
                }
            },
            Quote::Single => {
                if c == '\'' {
                    quote = Quote::Unquoted;
                }
            },
            Quote::Double => {
                if c == '"' {
                    quote = Quote::Unquoted;
                } else if c == '`' || opens_substitution {
                    return true;
                } else if c == '\\' && i + 1 < len {
                    let next = chars[i + 1];
                    if next == '$' || next == '`' || next == '"' || next == '\\' || next == '\n' {
                        step = 2;
                    }
                }
            },
        }
        i += step;
    }
    false
}

/// The words that `shlex::split` reads from a command line, or none where the line is erroneous.
pub uninterp spec fn shell_words(line: Seq<char>) -> Option<Seq<Seq<char>>>;

/// Calls `shlex::split`, which gives the words of a POSIX shell command line, or nothing where
/// the line is erroneous.
#[verifier::external_body]
fn split_shell_words(line: &str) -> (r: Option<Vec<String>>)
    ensures
        match r {
            Some(words) => shell_words(line@) == Some(text::views(words@)),
            None => shell_words(line@) is None,
        },
{
    shlex::split(line)
}

pub open spec fn command_separator(word: Seq<char>) -> bool {
    word == "|"@ || word == "||"@ || word == "&&"@ || word == ";"@ || word == "#"@
}

/// The number of words before the first separator.
pub open spec fn first_command_len(words: Seq<Seq<char>>) -> int
    decreases words.len(),
{
    if words.len() > 0 && !command_separator(words[0]) {
        1 + first_command_len(words.skip(1))
    } else {
        0
    }
}

pub open spec fn metadata_flag(argument: Seq<char>) -> bool {
    argument == "--dump-json"@ || argument == "--dump-single-json"@ || argument
        == "--flat-playlist"@ || argument == "--print"@ || text::begins_with(argument, "--print="@)
}

/// The components of a path with `/` separators that name something: neither empty nor `.`.
pub open spec fn named_components(parts: Seq<Seq<char>>) -> Seq<Seq<char>>
    decreases parts.len(),
{
    if parts.len() == 0 {
        Seq::empty()
    } else if parts.last().len() == 0 || parts.last() == "."@ {
        named_components(parts.drop_last())
    } else {
        named_components(parts.drop_last()).push(parts.last())
    }
}

/// The final component of a path, unless there is none or it is `..`.
pub open spec fn path_file_name(path: Seq<char>) -> Option<Seq<char>> {
    let parts = named_components(text::split_on(path, '/'));
    if parts.len() == 0 || parts.last() == ".."@ {
        None
    } else {
        Some(parts.last())
    }
}

pub fn file_name(path: &str) -> (r: Option<String>)
    ensures
        match r {
            Some(name) => path_file_name(path@) == Some(name@),
            None => path_file_name(path@) is None,
        },
{
    let chars = text::chars_of(path);
    let parts = text::split_char(chars.as_slice(), '/');
    let mut n: usize = parts.len();
    let ghost all = text::views(parts@);
    proof {
        assert(all.take(n as int) =~= all);
    }
    while n > 0
        invariant
            n <= parts@.len(),
            all == text::views(parts@),
            all == text::split_on(path@, '/'),
            named_components(all.take(n as int)) == named_components(all),
        decreases n,
    {
        let part = text::chars_of(parts[n - 1].as_str());
        proof {
            assert(all.take(n as int).drop_last() =~= all.take(n - 1));
            assert(all.take(n as int).last() == part@);
        }
        if part.len() == 0 || text::same_text(part.as_slice(), text::chars_of(".").as_slice()) {
            n -= 1;
        } else {
            if text::same_text(part.as_slice(), text::chars_of("..").as_slice()) {
                return None;
            }
            return Some(text::string_of(part.as_slice()));
        }
    }
    None
}

/// Whether the words call `yt-dlp` for metadata.
pub open spec fn calls_yt_dlp_for_metadata(words: Seq<Seq<char>>) -> bool {
    let first = words.take(first_command_len(words));
    &&& first.len() > 0
    &&& path_file_name(first[0]) matches Some(name) && text::lowered(name) == text::lowered(
        "yt-dlp"@,
    )
    &&& exists|i: int| 1 <= i < first.len() && metadata_flag(#[trigger] first[i])
}

fn is_command_separator(word: &str) -> (r: bool)
    ensures
        r == command_separator(word@),
{
    text::text_is(word, "|") || text::text_is(word, "||") || text::text_is(word, "&&")
        || text::text_is(word, ";") || text::text_is(word, "#")
}

fn is_metadata_flag(argument: &str) -> (r: bool)
    ensures
        r == metadata_flag(argument@),
{
    text::text_is(argument, "--dump-json") || text::text_is(argument, "--dump-single-json")
        || text::text_is(argument, "--flat-playlist") || text::text_is(argument, "--print")
        || text::starts_with(
        text::chars_of(argument).as_slice(),
        text::chars_of("--print=").as_slice(),
    )
}

proof fn lemma_first_command_len(words: Seq<Seq<char>>)
    ensures
        0 <= first_command_len(words) <= words.len(),
    decreases words.len(),
{
    if words.len() > 0 && !command_separator(words[0]) {
        lemma_first_command_len(words.skip(1));
    }
}

#[verifier::loop_isolation(false)]
pub fn words_call_yt_dlp_for_metadata(words: &Vec<String>) -> (r: bool)
    ensures
        r == calls_yt_dlp_for_metadata(text::views(words@)),
{
    let ghost all = text::views(words@);
    let mut n: usize = 0;
    proof {
        assert(all.skip(0) =~= all);
        lemma_first_command_len(all);
    }
    while n < words.len() && !is_command_separator(words[n].as_str())
        invariant
            n <= words@.len(),
            all == text::views(words@),
            n + first_command_len(all.skip(n as int)) == first_command_len(all),
        decreases words@.len() - n,
    {
        proof {
            assert(all.skip(n as int)[0] == all[n as int]);
            assert(all.skip(n as int).skip(1) =~= all.skip(n + 1));
        }
        n += 1;
    }
    proof {
        if n < words@.len() {
            assert(all.skip(n as int)[0] == all[n as int]);
        }
    }
    if n == 0 {
        return false;
    }
    let ghost first = all.take(n as int);
    let named = match file_name(words[0].as_str()) {
        Some(name) => {
            let lower = text::to_ascii_lowercase(text::chars_of(name.as_str()).as_slice());
            let wanted = text::to_ascii_lowercase(text::chars_of("yt-dlp").as_slice());
            text::text_is(lower.as_str(), wanted.as_str())
        },
        None => false,
    };
    if !named {
        return false;
    }
    let mut i: usize = 1;
    while i < n
        invariant
            1 <= i <= n <= words@.len(),
            all == text::views(words@),
            first == all.take(n as int),
            forall|j: int| 1 <= j < i ==> !metadata_flag(#[trigger] first[j]),
        decreases n - i,
    {
        if is_metadata_flag(words[i].as_str()) {
            proof {
                assert(metadata_flag(first[i as int]));
            }
            return true;
        }
        i += 1;
    }
    false
}

/// The lines that hold more than whitespace.
pub open spec fn nonblank(lines: Seq<Seq<char>>) -> Seq<Seq<char>>
    decreases lines.len(),
{
    if lines.len() == 0 {
        Seq::empty()
    } else if text::trimmed(lines.last()).len() == 0 {
        nonblank(lines.drop_last())
    } else {
        nonblank(lines.drop_last()).push(lines.last())
    }
}

pub fn nonblank_lines(s: &[char]) -> (r: Vec<String>)
    ensures
        text::views(r@) == nonblank(text::lines_of(s@)),
{
    let lines = text::lines(s);
    let ghost all = text::views(lines@);
    let mut out: Vec<String> = Vec::new();
    let mut i: usize = 0;
    while i < lines.len()
        invariant
            i <= lines@.len(),
            all == text::views(lines@),
            text::views(out@) == nonblank(all.take(i as int)),
        decreases lines@.len() - i,
    {
        let line = text::chars_of(lines[i].as_str());
        proof {
            assert(all.take(i + 1).drop_last() =~= all.take(i as int));
            assert(all.take(i + 1).last() == line@);
        }
        if text::trim(line.as_slice()).len() > 0 {
            let copy = text::string_of(line.as_slice());
            proof {
                text::lemma_views_push(out@, copy);
            }
            out.push(copy);
        }
        i += 1;
    }
    proof {
        assert(all.take(lines@.len() as int) =~= all);
    }
    out
}

/// Whether a tab-separated record holds addresses only as whole fields.
pub open spec fn tsv_line(line: Seq<char>) -> bool {
    &&& text::char_index(line, '\t', 0) < line.len()
    &&& forall|k: int|
        0 <= k < text::split_on(line, '\t').len() && holds_url(#[trigger] text::split_on(
            line,
            '\t',
        )[k]) ==> web_url::plain_url(text::split_on(line, '\t')[k])
}

pub open spec fn holds_url(s: Seq<char>) -> bool {
    web_url::next_url(s, 0) is Some
}

/// Whether some field of a tab-separated record holds an address.
pub open spec fn tsv_line_has_url(line: Seq<char>) -> bool {
    exists|k: int|
        0 <= k < text::split_on(line, '\t').len() && holds_url(#[trigger] text::split_on(
            line,
            '\t',
        )[k])
}

/// Whether an output consists of tab-separated records whose addresses are whole fields, with at
/// least one address.
pub open spec fn tsv_urls_are_fields(output: Seq<char>) -> bool {
    let lines = nonblank(text::lines_of(output));
    &&& forall|i: int| 0 <= i < lines.len() ==> tsv_line(#[trigger] lines[i])
    &&& exists|i: int| 0 <= i < lines.len() && tsv_line_has_url(#[trigger] lines[i])
}

/// For a record: whether it is a tab-separated one, and whether it holds an address.
fn scan_tsv_line(line: &str) -> (r: (bool, bool))
    ensures
        r.0 == tsv_line(line@),
        r.0 ==> r.1 == tsv_line_has_url(line@),
{
    let chars = text::chars_of(line);
    if text::index_of_char(chars.as_slice(), '\t', 0) >= chars.len() {
        return (false, false);
    }
    let fields = text::split_char(chars.as_slice(), '\t');
    let ghost parts = text::split_on(line@, '\t');
    let mut found = false;
    let mut k: usize = 0;
    while k < fields.len()
        invariant
            k <= fields@.len(),
            parts == text::split_on(line@, '\t'),
            text::views(fields@) == parts,
            text::char_index(line@, '\t', 0) < line@.len(),
            forall|j: int|
                0 <= j < k && holds_url(#[trigger] parts[j]) ==> web_url::plain_url(parts[j]),
            found == exists|j: int| 0 <= j < k && holds_url(#[trigger] parts[j]),
        decreases fields@.len() - k,
    {
        let field = text::chars_of(fields[k].as_str());
        proof {
            assert(parts[k as int] == field@);
        }
        if web_url::contains_web_url(field.as_slice()) {
            if !web_url::is_plain_web_url(field.as_slice()) {
                proof {
                    assert(holds_url(parts[k as int]));
                }
                return (false, false);
            }
            found = true;
            proof {
                assert(holds_url(parts[k as int]));
            }
        }
        k += 1;
    }
    (true, found)
}

pub fn output_is_tsv_metadata(output: &[char]) -> (r: bool)
    ensures
        r == tsv_urls_are_fields(output@),
{
    let lines = nonblank_lines(output);
    let ghost all = nonblank(text::lines_of(output@));
    let mut found = false;
    let mut i: usize = 0;
    while i < lines.len()
        invariant
            i <= lines@.len(),
            all == text::views(lines@),
            all == nonblank(text::lines_of(output@)),
            forall|j: int| 0 <= j < i ==> tsv_line(#[trigger] all[j]),
            found == exists|j: int| 0 <= j < i && tsv_line_has_url(#[trigger] all[j]),
        decreases lines@.len() - i,
    {
        let scan = scan_tsv_line(lines[i].as_str());
        proof {
            assert(all[i as int] == lines@[i as int]@);
        }
        if !scan.0 {
            return false;
        }
        if scan.1 {
            found = true;
        }
        i += 1;
    }
    found
}

/// Whether the output is tab-separated metadata that a single plain `yt-dlp` call printed.
pub open spec fn yt_dlp_metadata(
    output: Seq<char>,
    line: Seq<char>,
    words: Option<Seq<Seq<char>>>,
) -> bool {
    &&& !shell_control_from(line, 0, Quote::Unquoted)
    &&& words matches Some(list) && calls_yt_dlp_for_metadata(list)
    &&& tsv_urls_are_fields(output)
}

pub fn yt_dlp_tsv_urls_are_metadata(output: &[char], shell_line: &str) -> (r: bool)
    ensures
        r == yt_dlp_metadata(output@, shell_line@, shell_words(shell_line@)),
{
    if has_unquoted_shell_control(shell_line) {
        return false;
    }
    match split_shell_words(shell_line) {
        None => false,
        Some(words) => words_call_yt_dlp_for_metadata(&words) && output_is_tsv_metadata(output),
    }
}

pub open spec fn media_collection(key: Seq<char>) -> bool {
    key == "subtitles"@ || key == "automatic_captions"@ || key == "thumbnails"@ || key
        == "formats"@ || key == "requested_formats"@ || key == "requested_subtitles"@
}

/// Whether a string below the given lower-case keys may hold the address that it holds.
pub open spec fn metadata_text(value: Seq<char>, keys: Seq<Seq<char>>) -> bool {
    let key = if keys.len() > 0 {
        keys.last()
    } else {
        ""@
    };
    let nested = key == "url"@ && exists|i: int|
        0 <= i < keys.len() && media_collection(#[trigger] keys[i]);
    web_url::plain_url(value) && (web_url::metadata_key(key) || nested)
}

/// Whether every address below a JSON value is metadata.
pub open spec fn tree_urls_are_metadata(tree: JsonTree, keys: Seq<Seq<char>>) -> bool
    decreases tree,
{
    match tree {
        JsonTree::Object(entries) => forall|i: int|
            0 <= i < entries.len() ==> tree_urls_are_metadata(
                (#[trigger] entries[i]).1,
                keys.push(text::lowered(entries[i].0)),
            ),
        JsonTree::Array(items) => forall|i: int|
            0 <= i < items.len() ==> tree_urls_are_metadata(#[trigger] items[i], keys),
        JsonTree::Text(value) => holds_url(value) ==> metadata_text(value, keys),
        _ => true,
    }
}

/// Whether some string below a JSON value holds an address.
pub open spec fn tree_has_url(tree: JsonTree) -> bool
    decreases tree,
{
    match tree {
        JsonTree::Object(entries) => exists|i: int|
            0 <= i < entries.len() && tree_has_url((#[trigger] entries[i]).1),
        JsonTree::Array(items) => exists|i: int|
            0 <= i < items.len() && tree_has_url(#[trigger] items[i]),
        JsonTree::Text(value) => holds_url(value),
        _ => false,
    }
}

fn is_media_collection(key: &str) -> (r: bool)
    ensures
        r == media_collection(key@),
{
    text::text_is(key, "subtitles") || text::text_is(key, "automatic_captions") || text::text_is(
        key,
        "thumbnails",
    ) || text::text_is(key, "formats") || text::text_is(key, "requested_formats") || text::text_is(
        key,
        "requested_subtitles",
    )
}

fn text_is_metadata(value: &[char], keys: &Vec<String>) -> (r: bool)
    ensures
        r == metadata_text(value@, text::views(keys@)),
{
    let ghost all = text::views(keys@);
    let mut nested = false;
    let mut i: usize = 0;
    while i < keys.len()
        invariant
            i <= keys@.len(),
            all == text::views(keys@),
            nested == exists|j: int| 0 <= j < i && media_collection(#[trigger] all[j]),
        decreases keys@.len() - i,
    {
        proof {
            assert(all[i as int] == keys@[i as int]@);
        }
        if is_media_collection(keys[i].as_str()) {
            nested = true;
        }
        i += 1;
    }
    let key: &str = if keys.len() > 0 {
        keys[keys.len() - 1].as_str()
    } else {
        ""
    };
    web_url::is_plain_web_url(value) && (web_url::safe_metadata_url_key(key) || (text::text_is(
        key,
        "url",
    ) && nested))
}

/// For a JSON value below the given keys: whether all its addresses are metadata, and whether it
/// holds an address.
#[verifier::loop_isolation(false)]
fn visit_json(value: &Json, keys: &mut Vec<String>) -> (r: (bool, bool))
    ensures
        r.0 == tree_urls_are_metadata(value.tree(), text::views(old(keys)@)),
        r.0 ==> r.1 == tree_has_url(value.tree()),
        final(keys)@ == old(keys)@,
    decreases value,
{
    let ghost outer = keys@;
    match value {
        Json::Object(entries) => {
            let ghost parts = value.tree()->Object_0;
            let mut found = false;
            let mut i: usize = 0;
            while i < entries.len()
                invariant
                    *value == Json::Object(*entries),
                    parts == value.tree()->Object_0,
                    parts.len() == entries@.len(),
                    i <= entries@.len(),
                    keys@ == outer,
                    forall|j: int|
                        0 <= j < i ==> tree_urls_are_metadata(
                            (#[trigger] parts[j]).1,
                            text::views(outer).push(text::lowered(parts[j].0)),
                        ),
                    found == exists|j: int| 0 <= j < i && tree_has_url((#[trigger] parts[j]).1),
                decreases entries@.len() - i,
            {
                let entry = &entries[i];
                let key = text::to_ascii_lowercase(text::chars_of(entry.0.as_str()).as_slice());
                proof {
                    text::lemma_views_push(outer, key);
                    assert(parts[i as int] == (entry.0@, entry.1.tree()));
                }
                keys.push(key);
                let inner = visit_json(&entry.1, keys);
                keys.pop();
                proof {
                    assert(keys@ =~= outer);
                }
                if !inner.0 {
                    return (false, false);
                }
                if inner.1 {
                    found = true;
                }
                i += 1;
            }
            (true, found)
        },
        Json::Array(items) => {
            let ghost parts = value.tree()->Array_0;
            let mut found = false;
            let mut i: usize = 0;
            while i < items.len()
                invariant
                    *value == Json::Array(*items),
                    parts == value.tree()->Array_0,
                    parts.len() == items@.len(),
                    i <= items@.len(),
                    keys@ == outer,
                    forall|j: int|
                        0 <= j < i ==> tree_urls_are_metadata(
                            #[trigger] parts[j],
                            text::views(outer),
                        ),
                    found == exists|j: int| 0 <= j < i && tree_has_url(#[trigger] parts[j]),
                decreases items@.len() - i,
            {
                proof {
                    assert(parts[i as int] == items@[i as int].tree());
                }
                let inner = visit_json(&items[i], keys);
                if !inner.0 {
                    return (false, false);
                }
                if inner.1 {
                    found = true;
                }
                i += 1;
            }
            (true, found)
        },
        Json::Text(t) => {
            let chars = text::chars_of(t.as_str());
            if web_url::contains_web_url(chars.as_slice()) {
                (text_is_metadata(chars.as_slice(), keys), true)
            } else {
                (true, false)
            }
        },
        _ => (true, false),
    }
}

/// Nothing where some address below the value is not known to be metadata; otherwise whether the
/// value holds an address.
pub fn json_value_urls_are_metadata(value: &Json) -> (r: Option<bool>)
    ensures
        r == (if tree_urls_are_metadata(value.tree(), Seq::empty()) {
            Some(tree_has_url(value.tree()))
        } else {
            None
        }),
{
    let mut keys: Vec<String> = Vec::new();
    proof {
        assert(text::views(keys@) =~= Seq::empty());
    }
    let scan = visit_json(value, &mut keys);
    if scan.0 {
        Some(scan.1)
    } else {
        None
    }
}

/// Whether an output is JSON whose addresses, at least one, are all metadata. `whole` is the
/// output read as one document, `records` its nonblank lines read as one document each.
pub open spec fn json_urls_are_metadata(
    whole: Option<JsonTree>,
    records: Seq<Option<JsonTree>>,
) -> bool {
    match whole {
        Some(tree) => tree_urls_are_metadata(tree, Seq::empty()) && tree_has_url(tree),
        None => {
            &&& forall|i: int|
                0 <= i < records.len() ==> (#[trigger] records[i] matches Some(tree)
                    && tree_urls_are_metadata(tree, Seq::empty()))
            &&& exists|i: int|
                0 <= i < records.len() && (#[trigger] records[i] matches Some(tree)
                    && tree_has_url(tree))
        },
    }
}

pub open spec fn tree_of(value: Option<Json>) -> Option<JsonTree> {
    match value {
        Some(json) => Some(json.tree()),
        None => None,
    }
}

/// The decision on an output once it has been read as JSON, as a whole or line by line.
#[verifier::loop_isolation(false)]
pub fn parsed_output_urls_are_metadata(whole: &Option<Json>, records: &Vec<Option<Json>>) -> (r:
    bool)
    ensures
        r == json_urls_are_metadata(
            tree_of(*whole),
            Seq::new(records@.len(), |i: int| tree_of(records@[i])),
        ),
{
    if let Some(value) = whole {
        return match json_value_urls_are_metadata(value) {
            Some(found) => found,
            None => false,
        };
    }
    let ghost trees = Seq::new(records@.len(), |i: int| tree_of(records@[i]));
    let mut found = false;
    let mut i: usize = 0;
    while i < records.len()
        invariant
            i <= records@.len(),
            trees == Seq::new(records@.len(), |i: int| tree_of(records@[i])),
            forall|j: int|
                0 <= j < i ==> (#[trigger] trees[j] matches Some(tree) && tree_urls_are_metadata(
                    tree,
                    Seq::empty(),
                )),
            found == exists|j: int|
                0 <= j < i && (#[trigger] trees[j] matches Some(tree) && tree_has_url(tree)),
        decreases records@.len() - i,
    {
        proof {
            assert(trees[i as int] == tree_of(records@[i as int]));
        }
        match &records[i] {
            None => {
                return false;
            },
            Some(value) => match json_value_urls_are_metadata(value) {
                None => {
                    return false;
                },
                Some(has_url) => {
                    if has_url {
                        found = true;
                    }
                },
            },
        }
        i += 1;
    }
    found
}

/// The documents that the lines of an output spell, one by one.
pub open spec fn line_documents(lines: Seq<Seq<char>>) -> Seq<Option<JsonTree>> {
    Seq::new(lines.len(), |i: int| json::json_document(lines[i]))
}

pub fn json_output_urls_are_metadata(output: &[char]) -> (r: bool)
    ensures
        r == json_urls_are_metadata(
            json::json_document(output@),
            line_documents(nonblank(text::lines_of(output@))),
        ),
{
    let whole = json::parse_json(text::string_of(output).as_str());
    let mut records: Vec<Option<Json>> = Vec::new();
    if whole.is_none() {
        let lines = nonblank_lines(output);
        let mut i: usize = 0;
        while i < lines.len()
            invariant
                i <= lines@.len(),
                records@.len() == i,
                forall|j: int|
                    0 <= j < i ==> tree_of(#[trigger] records@[j]) == json::json_document(
                        lines@[j]@,
                    ),
            decreases lines@.len() - i,
        {
            records.push(json::parse_json(lines[i].as_str()));
            i += 1;
        }
        proof {
            assert(Seq::new(records@.len(), |i: int| tree_of(records@[i])) =~= line_documents(
                text::views(lines@),
            ));
        }
    }
    parsed_output_urls_are_metadata(&whole, &records)
}

/// What a host's scan for prompts, passwords, links and the like says of an output: as it
/// stands, and with `[url]` in place of each web address.
#[derive(Clone, Copy, PartialEq, Eq, Structural)]
pub struct ActionScan {
    pub verbatim: bool,
    pub without_urls: bool,
}

/// Whether every address of an output is known to be machine metadata.
pub open spec fn urls_are_metadata(output: Seq<char>, shell_line: Seq<char>) -> bool {
    ||| web_url::urls_are_assignment_values(output)
    ||| json_urls_are_metadata(
        json::json_document(output),
        line_documents(nonblank(text::lines_of(output))),
    )
    ||| yt_dlp_metadata(output, shell_line, shell_words(shell_line))
}

/// Whether a successful output asks the user to act. The addresses are left out of the scan only
/// where all of them are metadata and none of them is an action address.
pub open spec fn asks_user_to_act(
    output: Seq<char>,
    urls_are_metadata: bool,
    scan: ActionScan,
) -> bool {
    if holds_url(output) && !web_url::action_urls_from(output, 0) && urls_are_metadata {
        scan.without_urls
    } else {
        scan.verbatim
    }
}

/// The text of an output in which a host's scan looks for what asks the user to act.
pub open spec fn scanned_text(output: Seq<char>, shell_line: Seq<char>) -> Seq<char> {
    if holds_url(output) && !web_url::action_urls_from(output, 0) && urls_are_metadata(
        output,
        shell_line,
    ) {
        web_url::stripped_from(output, 0)
    } else {
        output
    }
}

/// Whether the addresses of an output are left out of the scan.
fn leaves_urls_out(output: &[char], shell_line: &str) -> (r: bool)
    ensures
        r == (holds_url(output@) && !web_url::action_urls_from(output@, 0) && urls_are_metadata(
            output@,
            shell_line@,
        )),
{
    web_url::contains_web_url(output) && !web_url::web_urls_have_action_markers(output) && (
    all_web_urls_are_machine_metadata(output) || yt_dlp_tsv_urls_are_metadata(output, shell_line))
}

/// Whether a successful output asks the user to act: what the host's scan
/// `tool_result_requires_user_action` says of it, without its addresses where they are all
/// metadata.
pub fn successful_output_requires_user_action<F: Fn(&str) -> bool>(
    output: &str,
    shell_line: &str,
    tool_result_requires_user_action: F,
) -> (r: bool)
    requires
        forall|t: &str| call_requires(tool_result_requires_user_action, (t,)),
    ensures
        answers(tool_result_requires_user_action, scanned_text(output@, shell_line@), r),
{
    let chars = text::chars_of(output);
    if leaves_urls_out(chars.as_slice(), shell_line) {
        let stripped = web_url::strip_web_urls(chars.as_slice());
        tool_result_requires_user_action(stripped.as_str())
    } else {
        tool_result_requires_user_action(output)
    }
}

/// Whether a host's scan can give an answer for a text.
pub open spec fn answers<F: Fn(&str) -> bool>(scan: F, text: Seq<char>, answer: bool) -> bool {
    exists|t: &str| t@ == text && #[trigger] call_ensures(scan, (t,), answer)
}

/// What a host's scan says of an output.
pub fn scan_output<F: Fn(&str) -> bool>(
    output: &str,
    tool_result_requires_user_action: F,
) -> (r: ActionScan)
    requires
        forall|t: &str| call_requires(tool_result_requires_user_action, (t,)),
    ensures
        answers(tool_result_requires_user_action, output@, r.verbatim),
        answers(
            tool_result_requires_user_action,
            web_url::stripped_from(output@, 0),
            r.without_urls,
        ),
{
    let stripped = web_url::strip_web_urls(text::chars_of(output).as_slice());
    ActionScan {
        verbatim: tool_result_requires_user_action(output),
        without_urls: tool_result_requires_user_action(stripped.as_str()),
    }
}

/// Whether a successful output asks the user to act, by what a host's scan said of it.
pub fn scan_requires_user_action(output: &str, shell_line: &str, scan: ActionScan) -> (r: bool)
    ensures
        r == asks_user_to_act(output@, urls_are_metadata(output@, shell_line@), scan),
{
    if leaves_urls_out(text::chars_of(output).as_slice(), shell_line) {
        scan.without_urls
    } else {
        scan.verbatim
    }
}

pub fn all_web_urls_are_machine_metadata(output: &[char]) -> (r: bool)
    ensures
        r == (web_url::urls_are_assignment_values(output@) || json_urls_are_metadata(
            json::json_document(output@),
            line_documents(nonblank(text::lines_of(output@))),
        )),
{
    web_url::all_web_urls_are_assignment_values(output) || json_output_urls_are_metadata(output)
}

/// The largest output, in bytes, that is examined. A larger one stays visible.
pub const MAX_COMPACT_OUTPUT_SCAN_BYTES: usize = 262144;

/// The number of bytes of a text in UTF-8.
pub open spec fn byte_len(s: Seq<char>) -> nat {
    vstd::utf8::encode_utf8(s).len()
}

/// The lines of an output with a line feed between each two, if that is small enough to examine.
pub open spec fn bounded_transcript(lines: Seq<Seq<char>>) -> Option<Seq<char>> {
    let whole = text::joined(lines, "\n"@);
    if byte_len(whole) <= MAX_COMPACT_OUTPUT_SCAN_BYTES {
        Some(whole)
    } else {
        None
    }
}

} // verus!
