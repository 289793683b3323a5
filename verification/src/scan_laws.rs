//! Laws of the scan of command output: what may be hidden and what asks the user to act.

use vstd::prelude::*;

use crate::history_cell::CommandOutput;
use crate::json::JsonTree;
use crate::output_scan;
use crate::output_scan::ActionScan;
use crate::output_scan::Quote;
use crate::text;
use crate::text_laws;
use crate::tool_classification;
use crate::web_url;

verus! {

/// A link starts where `http://` or `https://` stands, however it is capitalised.
pub open spec fn link_at(s: Seq<char>, i: int) -> bool {
    text::matches_at(s, "http://"@, i) || text::matches_at(s, "https://"@, i)
}

/// The next link is the first one at or behind a place.
pub proof fn law_next_link_is_the_first(s: Seq<char>, from: int)
    requires
        0 <= from,
    ensures
        match web_url::next_url(s, from) {
            Some(i) => {
                &&& from <= i < s.len()
                &&& link_at(s, i)
                &&& forall|k: int| from <= k < i ==> !#[trigger] link_at(s, k)
            },
            None => forall|k: int| from <= k < s.len() ==> !#[trigger] link_at(s, k),
        },
    decreases s.len() - from,
{
    if from < s.len() {
        law_next_link_is_the_first(s, from + 1);
    }
}

/// Whether a character ends a link.
pub open spec fn ends_link(c: char) -> bool {
    text::is_space(c) || c == '"' || c == '\'' || c == '<' || c == '>' || c == ')' || c == ']' || c
        == '}'
}

/// A link reaches up to the first character that ends links, or to the end of the text.
pub proof fn law_link_reaches_to_its_end(s: Seq<char>, start: int)
    requires
        0 <= start < s.len(),
    ensures
        start < web_url::url_end(s, start) <= s.len(),
        web_url::url_end(s, start) < s.len() ==> ends_link(s[web_url::url_end(s, start)]),
        forall|k: int|
            start < k < web_url::url_end(s, start) ==> !ends_link(#[trigger] s[k]),
{
    lemma_terminator(s, start + 1);
}

proof fn lemma_terminator(s: Seq<char>, from: int)
    requires
        0 <= from <= s.len(),
    ensures
        from <= web_url::terminator_index(s, from) <= s.len(),
        web_url::terminator_index(s, from) < s.len() ==> ends_link(
            s[web_url::terminator_index(s, from)],
        ),
        forall|k: int|
            from <= k < web_url::terminator_index(s, from) ==> !ends_link(#[trigger] s[k]),
    decreases s.len() - from,
{
    if from < s.len() && !web_url::ends_url(s[from]) {
        lemma_terminator(s, from + 1);
    }
}

/// The words in a link that ask the user to act.
pub open spec fn action_words() -> Seq<Seq<char>> {
    seq![
        "login"@,
        "sign-in"@,
        "signin"@,
        "oauth"@,
        "authorize"@,
        "approval"@,
        "verification"@,
        "verify"@,
        "activate"@,
        "activation"@,
        "authenticate"@,
        "authentication"@,
        "authorization"@,
        "consent"@,
        "/device"@,
    ]
}

/// A link asks the user to act exactly where it holds one of the words for it.
pub proof fn law_links_to_act_on_say_so(url: Seq<char>)
    ensures
        web_url::action_url(url) <==> exists|k: int|
            0 <= k < action_words().len() && text::holds_ignoring_case(
                url,
                #[trigger] action_words()[k],
            ),
{
    let words = action_words();
    assert(words.len() == 15);
    assert(words[0] == "login"@ && words[1] == "sign-in"@ && words[2] == "signin"@ && words[3]
        == "oauth"@ && words[4] == "authorize"@ && words[5] == "approval"@ && words[6]
        == "verification"@ && words[7] == "verify"@ && words[8] == "activate"@ && words[9]
        == "activation"@ && words[10] == "authenticate"@ && words[11] == "authentication"@
        && words[12] == "authorization"@ && words[13] == "consent"@ && words[14] == "/device"@);
}

/// A text with a link that asks the user to act is noticed, wherever in the text the link stands
/// as one that the search comes to: the first link, or one behind a link that was passed.
pub proof fn law_first_link_to_act_on_is_noticed(s: Seq<char>, cursor: int)
    requires
        0 <= cursor <= s.len(),
        web_url::next_url(s, cursor) is Some,
    ensures
        ({
            let start = web_url::next_url(s, cursor)->0;
            let end = web_url::url_end(s, start);
            web_url::action_urls_from(s, cursor) <==> web_url::action_url(s.subrange(start, end))
                || web_url::action_urls_from(s, end)
        }),
{
    law_next_link_is_the_first(s, cursor);
    let start = web_url::next_url(s, cursor)->0;
    law_link_reaches_to_its_end(s, start);
}

/// A text without links asks for nothing through them, and leaving links out of it leaves it as it
/// is.
pub proof fn law_text_without_links_is_left_alone(s: Seq<char>)
    requires
        forall|k: int| 0 <= k < s.len() ==> !#[trigger] link_at(s, k),
    ensures
        web_url::stripped_from(s, 0) == s,
        !web_url::action_urls_from(s, 0),
        !output_scan::holds_url(s),
{
    law_next_link_is_the_first(s, 0);
    assert(s.skip(0) =~= s);
}

/// Leaving links out puts a mark in the place of each and keeps everything else: what stands before
/// the first link is kept as it is.
pub proof fn law_links_are_left_out_one_by_one(s: Seq<char>, cursor: int)
    requires
        0 <= cursor <= s.len(),
    ensures
        match web_url::next_url(s, cursor) {
            Some(start) => web_url::stripped_from(s, cursor) == s.subrange(cursor, start)
                + "[url]"@ + web_url::stripped_from(s, web_url::url_end(s, start)),
            None => web_url::stripped_from(s, cursor) == s.skip(cursor),
        },
{
    law_next_link_is_the_first(s, cursor);
    if let Some(start) = web_url::next_url(s, cursor) {
        law_link_reaches_to_its_end(s, start);
    }
}

/// An output with a link to act on is scanned as it is. Links are left out of the scan only where
/// every one of them is data of the command, and then the answer is that of the text without
/// them.
pub proof fn law_links_to_act_on_are_never_left_out(
    output: Seq<char>,
    shell_line: Seq<char>,
    scan: ActionScan,
)
    ensures
        ({
            let data = output_scan::urls_are_metadata(output, shell_line);
            let asks = output_scan::asks_user_to_act(output, data, scan);
            &&& web_url::action_urls_from(output, 0) ==> asks == scan.verbatim
                && output_scan::scanned_text(output, shell_line) == output
            &&& (forall|k: int| 0 <= k < output.len() ==> !#[trigger] link_at(output, k)) ==> asks
                == scan.verbatim && output_scan::scanned_text(output, shell_line) == output
            &&& !data ==> asks == scan.verbatim && output_scan::scanned_text(output, shell_line)
                == output
            &&& data && !web_url::action_urls_from(output, 0) && (exists|k: int|
                0 <= k < output.len() && #[trigger] link_at(output, k)) ==> asks
                == scan.without_urls && output_scan::scanned_text(output, shell_line)
                == web_url::stripped_from(output, 0)
        }),
{
    law_next_link_is_the_first(output, 0);
}

/// A command may be folded only where it ended with no error, where its output is small enough to
/// be scanned whole, and where the scan finds nothing for the user to do.
pub proof fn law_only_harmless_output_is_folded(output: CommandOutput, shell_line: Seq<char>)
    ensures
        ({
            let whole = text::joined(text::views(output.lines@), "\n"@);
            tool_classification::foldable_output(output, shell_line) <==> {
                &&& output.exit_code == 0
                &&& output_scan::byte_len(whole) <= 262144
                &&& !output_scan::asks_user_to_act(
                    whole,
                    output_scan::urls_are_metadata(whole, shell_line),
                    output.scan,
                )
            }
        }),
{
}

/// A line without a tab is no record of fields, so that links in prose are no data; and a field
/// that holds more than a link makes the record no data either.
pub proof fn law_links_in_prose_are_no_fields(output: Seq<char>, i: int)
    requires
        0 <= i < output_scan::nonblank(text::lines_of(output)).len(),
    ensures
        ({
            let line = output_scan::nonblank(text::lines_of(output))[i];
            &&& !line.contains('\t') ==> !output_scan::tsv_urls_are_fields(output)
            &&& forall|k: int|
                0 <= k < text::split_on(line, '\t').len() && output_scan::holds_url(
                    #[trigger] text::split_on(line, '\t')[k],
                ) && !web_url::plain_url(text::split_on(line, '\t')[k])
                    ==> !output_scan::tsv_urls_are_fields(output)
        }),
{
    let line = output_scan::nonblank(text::lines_of(output))[i];
    if !line.contains('\t') {
        lemma_no_tab(line, 0);
    }
}

proof fn lemma_no_tab(line: Seq<char>, from: int)
    requires
        !line.contains('\t'),
        0 <= from <= line.len(),
    ensures
        text::char_index(line, '\t', from) == line.len(),
    decreases line.len() - from,
{
    if from < line.len() {
        assert(line[from] != '\t');
        lemma_no_tab(line, from + 1);
    }
}

/// The keys under which a link is data.
pub open spec fn data_keys() -> Seq<Seq<char>> {
    seq![
        "webpage_url"@,
        "original_url"@,
        "channel_url"@,
        "uploader_url"@,
        "thumbnail"@,
        "thumbnail_url"@,
        "manifest"@,
        "manifest_url"@,
    ]
}

/// The collections of media in which a bare `url` is data.
pub open spec fn media_keys() -> Seq<Seq<char>> {
    seq![
        "subtitles"@,
        "automatic_captions"@,
        "thumbnails"@,
        "formats"@,
        "requested_formats"@,
        "requested_subtitles"@,
    ]
}

/// A link in a document is data exactly where it is the whole text and stands under a key for it,
/// or as a `url` somewhere below a collection of media.
pub proof fn law_links_are_data_under_their_keys(value: Seq<char>, keys: Seq<Seq<char>>)
    requires
        keys.len() > 0,
        output_scan::holds_url(value),
    ensures
        output_scan::tree_urls_are_metadata(JsonTree::Text(value), keys) <==> web_url::plain_url(
            value,
        ) && (data_keys().contains(keys.last()) || (keys.last() == "url"@ && exists|i: int|
            0 <= i < keys.len() && media_keys().contains(#[trigger] keys[i]))),
{
    let data = data_keys();
    let media = media_keys();
    assert(data.len() == 8 && media.len() == 6);
    assert(data[0] == "webpage_url"@ && data[1] == "original_url"@ && data[2] == "channel_url"@
        && data[3] == "uploader_url"@ && data[4] == "thumbnail"@ && data[5] == "thumbnail_url"@
        && data[6] == "manifest"@ && data[7] == "manifest_url"@);
    assert(media[0] == "subtitles"@ && media[1] == "automatic_captions"@ && media[2]
        == "thumbnails"@ && media[3] == "formats"@ && media[4] == "requested_formats"@ && media[5]
        == "requested_subtitles"@);
    assert(web_url::metadata_key(keys.last()) <==> data.contains(keys.last()));
    assert forall|i: int| 0 <= i < keys.len() implies (output_scan::media_collection(
        #[trigger] keys[i],
    ) <==> media.contains(keys[i])) by {}
}

/// One link that is no data makes the whole document no data, below an object and below a list; and
/// one link is enough for a document to hold one.
pub proof fn law_one_link_to_show_is_enough(tree: JsonTree, keys: Seq<Seq<char>>, i: int)
    ensures
        tree matches JsonTree::Object(entries) ==> (0 <= i < entries.len() ==> {
            &&& output_scan::tree_urls_are_metadata(tree, keys)
                ==> output_scan::tree_urls_are_metadata(
                entries[i].1,
                keys.push(text::lowered(entries[i].0)),
            )
            &&& output_scan::tree_has_url(entries[i].1) ==> output_scan::tree_has_url(tree)
        }),
        tree matches JsonTree::Array(items) ==> (0 <= i < items.len() ==> {
            &&& output_scan::tree_urls_are_metadata(tree, keys)
                ==> output_scan::tree_urls_are_metadata(items[i], keys)
            &&& output_scan::tree_has_url(items[i]) ==> output_scan::tree_has_url(tree)
        }),
{
    match tree {
        JsonTree::Object(entries) => {
            if 0 <= i < entries.len() {
                let entry = entries[i];
                if output_scan::tree_urls_are_metadata(tree, keys) {
                    assert(output_scan::tree_urls_are_metadata(
                        entries[i].1,
                        keys.push(text::lowered(entries[i].0)),
                    ));
                }
                if output_scan::tree_has_url(entries[i].1) {
                    assert(output_scan::tree_has_url(tree));
                }
            }
        },
        JsonTree::Array(items) => {
            if 0 <= i < items.len() {
                let item = items[i];
            }
        },
        _ => {},
    }
}

/// Whether a character chains, redirects or comments shell commands.
pub open spec fn controls(c: char) -> bool {
    c == '\n' || c == '\r' || c == ';' || c == '|' || c == '&' || c == '#' || c == '`' || c == '<'
        || c == '>'
}

/// A command line without quotes and escapes is one plain command exactly where it holds no
/// character that chains, redirects or comments commands, and no substitution.
pub proof fn law_plain_line_has_no_control_characters(s: Seq<char>, from: int)
    requires
        0 <= from <= s.len(),
        forall|k: int|
            0 <= k < s.len() ==> (#[trigger] s[k]) != '\\' && s[k] != '\'' && s[k] != '"',
    ensures
        output_scan::shell_control_from(s, from, Quote::Unquoted) <==> exists|k: int|
            from <= k < s.len() && (controls(#[trigger] s[k]) || (s[k] == '$' && k + 1 < s.len()
                && s[k + 1] == '(')),
    decreases s.len() - from,
{
    if from < s.len() {
        law_plain_line_has_no_control_characters(s, from + 1);
        let c = s[from];
    }
}

/// Inside single quotes nothing controls the shell: only what stands behind the closing quote does.
pub proof fn law_single_quotes_protect(s: Seq<char>, from: int, close: int)
    requires
        0 <= from <= close < s.len(),
        s[close] == '\'',
        forall|k: int| from <= k < close ==> #[trigger] s[k] != '\'',
    ensures
        output_scan::shell_control_from(s, from, Quote::Single) == output_scan::shell_control_from(
            s,
            close + 1,
            Quote::Unquoted,
        ),
    decreases close - from,
{
    if from < close {
        assert(s[from] != '\'');
        law_single_quotes_protect(s, from + 1, close);
    }
}

/// Inside double quotes substitutions control the shell, and chaining characters do not.
pub proof fn law_double_quotes_let_substitutions_through(s: Seq<char>, from: int, close: int)
    requires
        0 <= from <= close < s.len(),
        s[close] == '"',
        forall|k: int| from <= k < close ==> (#[trigger] s[k]) != '"' && s[k] != '\\',
    ensures
        output_scan::shell_control_from(s, from, Quote::Double) <==> (exists|k: int|
            from <= k < close && ((#[trigger] s[k]) == '`' || (s[k] == '$' && s[k + 1] == '(')))
            || output_scan::shell_control_from(s, close + 1, Quote::Unquoted),
    decreases close - from,
{
    if from < close {
        let c = s[from];
        law_double_quotes_let_substitutions_through(s, from + 1, close);
    }
}

/// A path names its last component, but for empty ones and dots; a path that ends by going up names
/// no file.
pub proof fn law_path_names_its_last_component(path: Seq<char>)
    ensures
        match output_scan::path_file_name(path) {
            Some(name) => text::split_on(path, '/').contains(name) && name.len() > 0 && name
                != "."@ && name != ".."@,
            None => true,
        },
{
    lemma_components(text::split_on(path, '/'));
    let parts = output_scan::named_components(text::split_on(path, '/'));
    if parts.len() > 0 {
        assert(parts[parts.len() - 1] == parts.last());
    }
}

proof fn lemma_components(parts: Seq<Seq<char>>)
    ensures
        forall|k: int|
            0 <= k < output_scan::named_components(parts).len() ==> {
                let part = #[trigger] output_scan::named_components(parts)[k];
                parts.contains(part) && part.len() > 0 && part != "."@
            },
    decreases parts.len(),
{
    if parts.len() > 0 {
        let shorter = parts.drop_last();
        lemma_components(shorter);
        let all = output_scan::named_components(parts);
        let before = output_scan::named_components(shorter);
        assert forall|k: int| 0 <= k < all.len() implies {
            let part = #[trigger] all[k];
            parts.contains(part) && part.len() > 0 && part != "."@
        } by {
            if k < before.len() {
                let part = before[k];
                let i = choose|i: int| 0 <= i < shorter.len() && shorter[i] == part;
                assert(parts[i] == part);
            } else {
                assert(parts[parts.len() - 1] == all[k]);
            }
        }
    }
}

/// The file of a path without empty components and dots is what stands behind its last slash.
pub proof fn law_file_stands_behind_the_last_slash(folder: Seq<char>, name: Seq<char>)
    requires
        !name.contains('/'),
        name.len() > 0,
        name != "."@,
        name != ".."@,
    ensures
        output_scan::path_file_name(folder + seq!['/'] + name) == Some(name),
        output_scan::path_file_name(name) == Some(name),
{
    let path = folder + seq!['/'] + name;
    lemma_split_last(folder, name);
    let parts = text::split_on(path, '/');
    assert(parts.last() == name);
    lemma_no_slash(name, 0);
    assert(text::split_on(name, '/') =~= seq![name]);
    assert(seq![name].drop_last() =~= Seq::empty());
    assert(seq![name].last() == name);
}

proof fn lemma_no_slash(s: Seq<char>, from: int)
    requires
        !s.contains('/'),
        0 <= from <= s.len(),
    ensures
        text::char_index(s, '/', from) == s.len(),
    decreases s.len() - from,
{
    if from < s.len() {
        assert(s[from] != '/');
        lemma_no_slash(s, from + 1);
    }
}

proof fn lemma_first_slash(s: Seq<char>, from: int, at: int)
    requires
        0 <= from <= at < s.len(),
        s[at] == '/',
    ensures
        from <= text::char_index(s, '/', from) <= at,
        s[text::char_index(s, '/', from)] == '/',
        forall|k: int| from <= k < text::char_index(s, '/', from) ==> #[trigger] s[k] != '/',
    decreases at - from,
{
    if s[from] != '/' {
        lemma_first_slash(s, from + 1, at);
    }
}

proof fn lemma_split_last(folder: Seq<char>, name: Seq<char>)
    requires
        !name.contains('/'),
    ensures
        text::split_on(folder + seq!['/'] + name, '/').len() > 0,
        text::split_on(folder + seq!['/'] + name, '/').last() == name,
    decreases folder.len(),
{
    let path = folder + seq!['/'] + name;
    let n = folder.len() as int;
    assert(path[n] == '/');
    lemma_first_slash(path, 0, n);
    let i = text::char_index(path, '/', 0);
    if i == n {
        assert(path.skip(n + 1) =~= name);
        lemma_no_slash(name, 0);
        assert(text::split_on(name, '/') =~= seq![name]);
    } else {
        let rest = folder.skip(i + 1);
        assert(path.skip(i + 1) =~= rest + seq!['/'] + name);
        lemma_split_last(rest, name);
    }
}

/// A link is one value among data only in one of three forms: as the value of an assignment, in a
/// document, or in the fields that a plain `yt-dlp` call printed.
pub proof fn law_data_comes_in_three_forms(output: Seq<char>, shell_line: Seq<char>)
    ensures
        ({
            let lines = output_scan::nonblank(text::lines_of(output));
            output_scan::urls_are_metadata(output, shell_line) <==> {
                ||| web_url::urls_are_assignment_values(output)
                ||| output_scan::json_urls_are_metadata(
                    crate::json::json_document(output),
                    output_scan::line_documents(lines),
                )
                ||| !output_scan::shell_control_from(shell_line, 0, Quote::Unquoted) && (
                output_scan::shell_words(shell_line) matches Some(words)
                    && output_scan::calls_yt_dlp_for_metadata(words))
                    && output_scan::tsv_urls_are_fields(output)
            }
        }),
{
}

/// A document is read as a whole where that can be done, else each of its lines as one. It is data
/// where all links in it are, and there is one; a line that cannot be read makes it no data.
pub proof fn law_documents_are_data_as_a_whole(
    tree: JsonTree,
    records: Seq<Option<JsonTree>>,
    i: int,
)
    ensures
        output_scan::json_urls_are_metadata(Some(tree), records)
            <==> output_scan::tree_urls_are_metadata(tree, Seq::empty())
            && output_scan::tree_has_url(tree),
        0 <= i < records.len() && records[i] is None ==> !output_scan::json_urls_are_metadata(
            None,
            records,
        ),
        0 <= i < records.len() ==> (records[i] matches Some(t) ==> (
        !output_scan::tree_urls_are_metadata(t, Seq::empty())
            ==> !output_scan::json_urls_are_metadata(None, records))),
        (forall|k: int|
            0 <= k < records.len() ==> (#[trigger] records[k] matches Some(t)
                && output_scan::tree_urls_are_metadata(t, Seq::empty()))) && 0 <= i < records.len()
            && (records[i] matches Some(t) && output_scan::tree_has_url(t))
            ==> output_scan::json_urls_are_metadata(None, records),
        (forall|k: int|
            0 <= k < records.len() ==> !(#[trigger] records[k] matches Some(t)
                && output_scan::tree_has_url(t))) ==> !output_scan::json_urls_are_metadata(
            None,
            records,
        ),
{
}

/// Records of fields are data where every line has a tab, every field with a link is nothing but
/// the link, and there is one.
pub proof fn law_fields_are_data_line_by_line(output: Seq<char>, i: int, k: int)
    requires
        ({
            let lines = output_scan::nonblank(text::lines_of(output));
            &&& forall|a: int|
                0 <= a < lines.len() ==> {
                    &&& text::char_index(#[trigger] lines[a], '\t', 0) < lines[a].len()
                    &&& forall|b: int|
                        0 <= b < text::split_on(lines[a], '\t').len() && output_scan::holds_url(
                            #[trigger] text::split_on(lines[a], '\t')[b],
                        ) ==> web_url::plain_url(text::split_on(lines[a], '\t')[b])
                }
            &&& 0 <= i < lines.len()
            &&& 0 <= k < text::split_on(lines[i], '\t').len()
            &&& output_scan::holds_url(text::split_on(lines[i], '\t')[k])
        }),
    ensures
        output_scan::tsv_urls_are_fields(output),
{
    let lines = output_scan::nonblank(text::lines_of(output));
    assert(output_scan::tsv_line_has_url(lines[i]));
}

/// The words that end a command.
pub open spec fn separators() -> Seq<Seq<char>> {
    seq!["|"@, "||"@, "&&"@, ";"@, "#"@]
}

/// The options with which `yt-dlp` prints data.
pub open spec fn data_options() -> Seq<Seq<char>> {
    seq!["--dump-json"@, "--dump-single-json"@, "--flat-playlist"@, "--print"@]
}

proof fn lemma_first_command(words: Seq<Seq<char>>)
    ensures
        ({
            let n = output_scan::first_command_len(words);
            &&& 0 <= n <= words.len()
            &&& n < words.len() ==> output_scan::command_separator(words[n])
            &&& forall|j: int| 0 <= j < n ==> !output_scan::command_separator(#[trigger] words[j])
        }),
    decreases words.len(),
{
    if words.len() > 0 && !output_scan::command_separator(words[0]) {
        let rest = words.skip(1);
        lemma_first_command(rest);
        assert forall|j: int|
            0 <= j < output_scan::first_command_len(words) implies !output_scan::command_separator(
            #[trigger] words[j],
        ) by {
            if j > 0 {
                assert(rest[j - 1] == words[j]);
            }
        }
    }
}

/// A line calls `yt-dlp` for data where its first command is of that name, in whatever folder and
/// spelling, and has one of the options for data before the first separator.
pub proof fn law_yt_dlp_is_called_for_data_by_its_options(words: Seq<Seq<char>>, n: int)
    requires
        0 <= n <= words.len(),
        forall|j: int| 0 <= j < n ==> !separators().contains(#[trigger] words[j]),
        n < words.len() ==> separators().contains(words[n]),
    ensures
        output_scan::calls_yt_dlp_for_metadata(words) <==> n > 0 && (output_scan::path_file_name(
            words[0],
        ) matches Some(name) && text::lowered(name) == text::lowered("yt-dlp"@)) && (exists|i: int|
            1 <= i < n && (data_options().contains(#[trigger] words[i]) || text::begins_with(
                words[i],
                "--print="@,
            ))),
{
    let seps = separators();
    let opts = data_options();
    assert(seps.len() == 5 && opts.len() == 4);
    assert(seps[0] == "|"@ && seps[1] == "||"@ && seps[2] == "&&"@ && seps[3] == ";"@ && seps[4]
        == "#"@);
    assert(opts[0] == "--dump-json"@ && opts[1] == "--dump-single-json"@ && opts[2]
        == "--flat-playlist"@ && opts[3] == "--print"@);
    assert forall|w: Seq<char>| #[trigger] output_scan::command_separator(w) <==> seps.contains(
        w,
    ) by {}
    assert forall|w: Seq<char>| #[trigger] output_scan::metadata_flag(w) <==> opts.contains(w)
        || text::begins_with(w, "--print="@) by {}
    lemma_first_command(words);
    let found = output_scan::first_command_len(words);
    if found < n {
        assert(output_scan::command_separator(words[found]));
    } else if n < found {
        assert(output_scan::command_separator(words[n]));
    }
    let first = words.take(n);
    assert forall|i: int| 0 <= i < n implies #[trigger] first[i] == words[i] by {}
    if exists|i: int|
        1 <= i < n && (data_options().contains(#[trigger] words[i]) || text::begins_with(
            words[i],
            "--print="@,
        )) {
        let i = choose|i: int|
            1 <= i < n && (data_options().contains(#[trigger] words[i]) || text::begins_with(
                words[i],
                "--print="@,
            ));
        assert(output_scan::metadata_flag(first[i]));
    }
    if output_scan::calls_yt_dlp_for_metadata(words) {
        let i = choose|i: int|
            1 <= i < first.len() && output_scan::metadata_flag(#[trigger] first[i]);
        assert(opts.contains(words[i]) || text::begins_with(words[i], "--print="@));
    }
}

proof fn lemma_line_start(s: Seq<char>, end: int)
    requires
        0 <= end <= s.len(),
    ensures
        0 <= web_url::line_start(s, end) <= end,
        web_url::line_start(s, end) > 0 ==> s[web_url::line_start(s, end) - 1] == '\n',
        forall|k: int| web_url::line_start(s, end) <= k < end ==> #[trigger] s[k] != '\n',
    decreases end,
{
    if end > 0 && s[end - 1] != '\n' {
        lemma_line_start(s, end - 1);
    }
}

/// A link is the value of an assignment where its line begins with a key for data and an equals
/// sign right before it, but for blanks.
pub proof fn law_assigned_link_follows_its_key(s: Seq<char>, start: int, u: int)
    requires
        0 <= start <= u <= s.len(),
        start == 0 || s[start - 1] == '\n',
        forall|k: int| start <= k < u ==> #[trigger] s[k] != '\n',
    ensures
        ({
            let before = text::trimmed_end(s.subrange(start, u));
            let key = text::lowered(text::trimmed(before.drop_last()));
            web_url::assigned_url(s, u) <==> before.len() > 0 && before.last() == '='
                && data_keys().contains(key)
        }),
{
    lemma_line_start(s, u);
    let found = web_url::line_start(s, u);
    if found < start {
        assert(s[start - 1] != '\n');
    } else if found > start {
        assert(s[found - 1] != '\n');
    }
    let data = data_keys();
    assert(data[0] == "webpage_url"@ && data[1] == "original_url"@ && data[2] == "channel_url"@
        && data[3] == "uploader_url"@ && data[4] == "thumbnail"@ && data[5] == "thumbnail_url"@
        && data[6] == "manifest"@ && data[7] == "manifest_url"@);
    let before = text::trimmed_end(s.subrange(start, u));
    let key = text::lowered(text::trimmed(before.drop_last()));
    if data.contains(key) {
        lemma_keys_are_plain(key);
    }
}

proof fn lemma_keys_are_plain(key: Seq<char>)
    requires
        data_keys().contains(key),
    ensures
        forall|i: int| 0 <= i < key.len() ==> web_url::key_char(#[trigger] key[i]),
        web_url::metadata_key(key),
{
    reveal_strlit("webpage_url");
    reveal_strlit("original_url");
    reveal_strlit("channel_url");
    reveal_strlit("uploader_url");
    reveal_strlit("thumbnail");
    reveal_strlit("thumbnail_url");
    reveal_strlit("manifest");
    reveal_strlit("manifest_url");
    let data = data_keys();
    assert(data.len() == 8);
    assert(data[0] == "webpage_url"@ && data[1] == "original_url"@ && data[2] == "channel_url"@
        && data[3] == "uploader_url"@ && data[4] == "thumbnail"@ && data[5] == "thumbnail_url"@
        && data[6] == "manifest"@ && data[7] == "manifest_url"@);
}

/// A text is nothing but a link where it begins with one and holds no blanks, but for those around
/// it.
pub proof fn law_plain_link_has_no_blanks(s: Seq<char>)
    ensures
        web_url::plain_url(s) <==> {
            let inner = text::trimmed(s);
            link_at(inner, 0) && (forall|k: int|
                0 <= k < inner.len() ==> !text::is_space(#[trigger] inner[k]))
        },
{
    let inner = text::trimmed(s);
    text_laws::law_trimming_takes_spaces_at_the_ends(s);
    if link_at(inner, 0) {
        reveal_strlit("http://");
        reveal_strlit("https://");
        assert(inner.len() > 0);
        lemma_one_word(inner);
    }
}

proof fn lemma_word_reach(t: Seq<char>)
    ensures
        0 <= text::word_len(t) <= t.len(),
        forall|k: int| 0 <= k < text::word_len(t) ==> !text::is_space(#[trigger] t[k]),
        text::word_len(t) < t.len() ==> text::is_space(t[text::word_len(t)]),
    decreases t.len(),
{
    if t.len() > 0 && !text::is_space(t[0]) {
        let rest = t.skip(1);
        lemma_word_reach(rest);
        assert forall|k: int| 0 <= k < text::word_len(t) implies !text::is_space(#[trigger] t[k]) by {
            if k > 0 {
                assert(rest[k - 1] == t[k]);
            }
        }
    }
}

proof fn lemma_one_word(t: Seq<char>)
    requires
        t.len() > 0,
        !text::is_space(t[0]),
        !text::is_space(t.last()),
    ensures
        text::words_of(t).len() == 1 <==> (forall|k: int|
            0 <= k < t.len() ==> !text::is_space(#[trigger] t[k])),
{
    lemma_word_reach(t);
    let n = text::word_len(t);
    let rest = t.skip(n);
    assert(text::trimmed_start(t) == t);
    if n == t.len() {
        assert(rest.len() == 0);
        assert(text::words_of(rest).len() == 0);
    } else {
        assert(text::is_space(t[n]));
        // The last character is no blank, so another word follows.
        assert(rest.last() == t.last());
        lemma_some_word(rest);
    }
}

proof fn lemma_some_word(t: Seq<char>)
    requires
        t.len() > 0,
        !text::is_space(t.last()),
    ensures
        text::words_of(t).len() > 0,
{
    lemma_start_keeps_last(t);
}

proof fn lemma_start_keeps_last(t: Seq<char>)
    requires
        t.len() > 0,
        !text::is_space(t.last()),
    ensures
        text::trimmed_start(t).len() > 0,
    decreases t.len(),
{
    if text::is_space(t[0]) {
        assert(t.skip(1).last() == t.last());
        lemma_start_keeps_last(t.skip(1));
    }
}

/// An output of assignments holds a link, and its first one is an assigned value; one link that is
/// not makes the output no data.
pub proof fn law_every_link_of_assignments_is_assigned(s: Seq<char>, cursor: int)
    requires
        0 <= cursor <= s.len(),
    ensures
        web_url::urls_are_assignment_values(s) ==> exists|k: int| #[trigger] link_at(s, k),
        web_url::next_url(s, cursor) is None ==> web_url::assigned_urls_from(s, cursor),
        web_url::next_url(s, cursor) matches Some(u) ==> (web_url::assigned_urls_from(s, cursor)
            <==> web_url::assigned_url(s, u) && web_url::assigned_urls_from(
            s,
            u + web_url::scheme_len(s, u),
        )),
{
    law_next_link_is_the_first(s, 0);
    law_next_link_is_the_first(s, cursor);
    if let Some(u) = web_url::next_url(s, cursor) {
        web_url::lemma_scheme_len(s, u);
    }
}

} // verus!
