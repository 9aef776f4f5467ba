//! The file that lists the active plugins.
//!
//! It is text in Windows-1252, in one of two forms. Most games hold one plugin
//! name on each line. Morrowind holds its list in its ini file, below the
//! line `[Game Files]`, each name as the value of a numbered `GameFile` key.
use crate::codepage::{
    decode_windows_1252, encode_windows_1252, windows_1252_decoding, windows_1252_encoding,
};
use crate::enums::{GameId, LoadOrderError};
use crate::game_settings::{string_views, GameSettings};
use crate::lines::{
    are_single_lines, content_view, joined, lemma_joined_lines, lemma_joined_take,
    lemma_lines_are_single, lemma_lines_of_joined, lemma_lines_of_joined_alone, lines, slice_views,
    split_lines, strip_carriage_return, terminated, without_carriage_return, LINE_FEED,
};
use crate::load_order::readable::str_views;
use crate::load_order::timestamp_based::TimestampBasedLoadOrder;
use crate::load_order::{
    active_plugins, first_position, lemma_first_position, lemma_first_position_found,
    lemma_first_position_missing, names_of,
};
use vstd::prelude::*;

verus! {

/// `[Game Files]`, the line above the keys of a keyed list.
pub const GAME_FILES_HEADER: [u8; 12] = [
    0x5B, 0x47, 0x61, 0x6D, 0x65, 0x20, 0x46, 0x69, 0x6C, 0x65, 0x73, 0x5D,
];

/// `GameFile`, the name that every key of a keyed list begins with.
pub const KEY_NAME: [u8; 8] = [0x47, 0x61, 0x6D, 0x65, 0x46, 0x69, 0x6C, 0x65];

/// `=`, which parts a key from its value.
pub const EQUALS_SIGN: u8 = 0x3D;

/// The digit `0`; the other digits follow it.
pub const DIGIT_ZERO: u8 = 0x30;

/// Whether `line` is the header line: the header and nothing else. The
/// carriage return of a `\r\n` line ending does not count.
pub open spec fn is_header_line(line: Seq<u8>) -> bool {
    without_carriage_return(line) == GAME_FILES_HEADER@
}

/// The lines of a keyed list that a rewrite keeps as they are: those up to and
/// with the first header line. A file without header line is kept whole.
pub open spec fn prelude_lines(lines: Seq<Seq<u8>>) -> Seq<Seq<u8>> {
    match first_position(lines, |line: Seq<u8>| is_header_line(line)) {
        Some(header) => lines.take(header + 1),
        None => lines,
    }
}

/// The lines that a new active plugins file keeps of the present one, given
/// what the file holds now (`None`: there is no file): of a keyed list the
/// [`prelude_lines`], of any other list none.
pub open spec fn kept_lines(game_id: GameId, existing_content: Option<Seq<u8>>) -> Seq<Seq<u8>> {
    match existing_content {
        Some(content) if game_id.uses_keyed_list() => prelude_lines(lines(content)),
        _ => Seq::empty(),
    }
}

/// What a new active plugins file begins with, given what the file holds now
/// (`None`: there is no file). For a keyed list these are the bytes of the
/// present file up to and with its header line, each line ended by a line
/// feed; for any other list, nothing.
pub open spec fn file_prelude(game_id: GameId, existing_content: Option<Seq<u8>>) -> Seq<u8> {
    joined(kept_lines(game_id, existing_content))
}

/// Whether the file has a header line.
pub open spec fn has_header_line(content: Seq<u8>) -> bool {
    first_position(lines(content), |line: Seq<u8>| is_header_line(line)) is Some
}

/// The prelude is taken from the file as it is: it is what the file begins
/// with, where the file ends in a line feed or the header line is not the
/// file's last line.
pub proof fn lemma_prelude_is_verbatim(game_id: GameId, content: Seq<u8>)
    ensures
        ({
            let prelude = file_prelude(game_id, Some(content));
            prelude.len() <= terminated(content).len() && prelude == terminated(content).take(
                prelude.len() as int,
            )
        }),
{
    if game_id.uses_keyed_list() {
        let all = lines(content);
        lemma_joined_lines(content);
        lemma_first_position(all, |line: Seq<u8>| is_header_line(line));
        match first_position(all, |line: Seq<u8>| is_header_line(line)) {
            Some(header) => lemma_joined_take(all, header + 1),
            None => lemma_joined_take(all, all.len() as int),
        }
        assert(all.take(all.len() as int) =~= all);
    } else {
        assert(terminated(content).take(0) =~= Seq::<u8>::empty());
    }
}

/// A file that is written anew keeps its prelude: what [`file_prelude`] takes
/// from a file with a header line, it takes again from any file that begins
/// with it, whatever entries follow.
pub proof fn lemma_prelude_is_kept(game_id: GameId, content: Seq<u8>, entries: Seq<u8>)
    requires
        game_id.uses_keyed_list() ==> has_header_line(content),
    ensures
        file_prelude(game_id, Some(file_prelude(game_id, Some(content)) + entries)) == file_prelude(
            game_id,
            Some(content),
        ),
{
    if game_id.uses_keyed_list() {
        let is_header = |line: Seq<u8>| is_header_line(line);
        let all = lines(content);
        lemma_first_position(all, is_header);
        let header = first_position(all, is_header)->0;
        let kept = all.take(header + 1);
        assert(prelude_lines(all) == kept);
        lemma_lines_are_single(content);
        assert(are_single_lines(kept)) by {
            assert forall|index: int| 0 <= index < kept.len() implies !(#[trigger] kept[index]).contains(
                LINE_FEED,
            ) by {
                assert(kept[index] == all[index]);
            }
        }
        lemma_lines_of_joined(kept, entries);
        let rewritten = lines(joined(kept) + entries);
        assert(rewritten == kept + lines(entries));
        assert(is_header(rewritten[header]));
        assert forall|earlier: int| 0 <= earlier < header implies !is_header(
            #[trigger] rewritten[earlier],
        ) by {
            assert(rewritten[earlier] == all[earlier]);
        }
        lemma_first_position_found(rewritten, is_header, header);
        assert(rewritten.take(header + 1) =~= kept);
    }
}

/// Whether `left` and `right` hold the same bytes.
fn same_bytes(left: &[u8], right: &[u8]) -> (same: bool)
    ensures
        same == (left@ == right@),
{
    if left.len() != right.len() {
        return false;
    }
    let mut index: usize = 0;
    while index < left.len()
        invariant
            index <= left@.len(),
            left@.len() == right@.len(),
            forall|earlier: int| 0 <= earlier < index ==> left@[earlier] == right@[earlier],
        decreases left@.len() - index,
    {
        if left[index] != right[index] {
            return false;
        }
        index += 1;
    }
    assert(left@ =~= right@);
    true
}

/// Puts `bytes` at the end of `text`.
fn push_all(text: &mut Vec<u8>, bytes: &[u8])
    ensures
        final(text)@ == old(text)@ + bytes@,
{
    let mut index: usize = 0;
    while index < bytes.len()
        invariant
            index <= bytes@.len(),
            text@ == old(text)@ + bytes@.take(index as int),
        decreases bytes@.len() - index,
    {
        text.push(bytes[index]);
        assert(bytes@.take(index + 1) =~= bytes@.take(index as int).push(bytes@[index as int]));
        index += 1;
    }
    assert(bytes@.take(index as int) =~= bytes@);
}

/// What a new active plugins file begins with: see [`file_prelude`].
pub fn get_file_prelude(game_settings: &GameSettings, existing_content: Option<&[u8]>) -> (prelude:
    Vec<u8>)
    ensures
        prelude@ == file_prelude(game_settings@.id, content_view(existing_content)),
{
    let mut prelude: Vec<u8> = Vec::new();
    if game_settings.id().uses_keyed_list() {
        if let Some(content) = existing_content {
            let found = split_lines(content);
            let ghost is_header = |line: Seq<u8>| is_header_line(line);
            let ghost all = lines(content@);
            let mut index: usize = 0;
            while index < found.len()
                invariant
                    index <= found@.len(),
                    slice_views(found@) == all,
                    all == lines(content@),
                    game_settings@.id.uses_keyed_list(),
                    existing_content == Some(content),
                    is_header == |line: Seq<u8>| is_header_line(line),
                    prelude@ == joined(all.take(index as int)),
                    forall|earlier: int| 0 <= earlier < index ==> !is_header(#[trigger] all[earlier]),
                decreases found@.len() - index,
            {
                let line = found[index];
                assert(line@ == all[index as int]);
                push_all(&mut prelude, line);
                prelude.push(LINE_FEED);
                assert(all.take(index + 1).drop_last() =~= all.take(index as int));
                if same_bytes(strip_carriage_return(line), GAME_FILES_HEADER.as_slice()) {
                    proof {
                        assert(is_header(all[index as int]));
                        lemma_first_position_found(all, is_header, index as int);
                    }
                    return prelude;
                }
                index += 1;
            }
            proof {
                lemma_first_position_missing(all, is_header);
                assert(all.take(index as int) =~= all);
            }
        }
    }
    prelude
}

/// `number` in decimal digits, without leading zeros.
pub open spec fn decimal_digits(number: nat) -> Seq<u8>
    decreases number,
{
    if number < 10 {
        seq![(DIGIT_ZERO + number) as u8]
    } else {
        decimal_digits(number / 10).push((DIGIT_ZERO + number % 10) as u8)
    }
}

/// The key of the entry at `index` of a keyed list, with its equals sign:
/// `GameFile0=` for the first.
pub open spec fn entry_key(index: nat) -> Seq<u8> {
    KEY_NAME@ + decimal_digits(index) + seq![EQUALS_SIGN]
}

/// The line for the active plugin at `index` of the list, given its encoded
/// name: in a keyed list its key and the name, in any other list the name.
pub open spec fn entry_line(game_id: GameId, index: nat, encoded_name: Seq<u8>) -> Seq<u8> {
    if game_id.uses_keyed_list() {
        entry_key(index) + encoded_name
    } else {
        encoded_name
    }
}

/// Whether Windows-1252 has a byte for every character of every name.
pub open spec fn all_encodable(names: Seq<Seq<char>>) -> bool {
    forall|index: int|
        0 <= index < names.len() ==> windows_1252_encoding(#[trigger] names[index]) is Some
}

/// The lines that list `names` as active, in their order. The keys of a keyed
/// list count from 0.
pub open spec fn entry_lines(game_id: GameId, names: Seq<Seq<char>>) -> Seq<Seq<u8>> {
    Seq::new(
        names.len(),
        |index: int| entry_line(game_id, index as nat, windows_1252_encoding(names[index]).unwrap()),
    )
}

/// The active plugins file that begins with `prelude` and lists `names`; `None`
/// where one of the names cannot be encoded.
pub open spec fn active_plugins_file_content(
    game_id: GameId,
    prelude: Seq<u8>,
    names: Seq<Seq<char>>,
) -> Option<Seq<u8>> {
    if all_encodable(names) {
        Some(prelude + joined(entry_lines(game_id, names)))
    } else {
        None
    }
}

/// Puts `number` in decimal digits at the end of `text`.
fn push_decimal(text: &mut Vec<u8>, number: usize)
    ensures
        final(text)@ == old(text)@ + decimal_digits(number as nat),
    decreases number,
{
    if number >= 10 {
        push_decimal(text, number / 10);
    }
    let digit: u8 = (number % 10) as u8;
    text.push(DIGIT_ZERO + digit);
    assert(text@ =~= old(text)@ + decimal_digits(number as nat));
}

/// The active plugins file for `load_order`, given what the file holds now
/// (`None`: there is no file). It begins with the [`file_prelude`] and lists
/// the active plugins in load order, numbered anew where the list is keyed. A
/// name that cannot be encoded is an error, and no file is made.
pub fn save_active_plugins(
    load_order: &TimestampBasedLoadOrder,
    existing_content: Option<&[u8]>,
) -> (content: Result<Vec<u8>, LoadOrderError>)
    ensures
        ({
            let game_id = load_order@.game_settings.id;
            let expected = active_plugins_file_content(
                game_id,
                file_prelude(game_id, content_view(existing_content)),
                names_of(active_plugins(load_order@.plugins)),
            );
            match content {
                Ok(bytes) => expected == Some(bytes@),
                Err(error) => error is EncodeError && expected is None,
            }
        }),
{
    let game_id = load_order.game_settings().id();
    let mut content = get_file_prelude(load_order.game_settings(), existing_content);
    let names = load_order.active_plugin_names();
    let ghost prelude = content@;
    let ghost all = str_views(names@);
    let mut index: usize = 0;
    assert(entry_lines(game_id, all.take(0)) =~= Seq::empty());
    while index < names.len()
        invariant
            index <= names@.len(),
            all == str_views(names@),
            all == names_of(active_plugins(load_order@.plugins)),
            game_id == load_order@.game_settings.id,
            all_encodable(all.take(index as int)),
            content@ == prelude + joined(entry_lines(game_id, all.take(index as int))),
        decreases names@.len() - index,
    {
        let ghost before = entry_lines(game_id, all.take(index as int));
        let ghost text = content@;
        if game_id.uses_keyed_list() {
            push_all(&mut content, KEY_NAME.as_slice());
            push_decimal(&mut content, index);
            content.push(EQUALS_SIGN);
        }
        assert(names@[index as int]@ == all[index as int]);
        match encode_windows_1252(names[index]) {
            Ok(encoded) => push_all(&mut content, encoded.as_slice()),
            Err(error) => {
                assert(windows_1252_encoding(all[index as int]) is None);
                return Err(error);
            },
        }
        content.push(LINE_FEED);
        proof {
            let line = entry_line(
                game_id,
                index as nat,
                windows_1252_encoding(all[index as int]).unwrap(),
            );
            assert(content@ =~= text + line.push(LINE_FEED));
            assert(all.take(index + 1).drop_last() =~= all.take(index as int));
            assert(entry_lines(game_id, all.take(index + 1)) =~= before.push(line));
            assert(entry_lines(game_id, all.take(index + 1)).drop_last() =~= before);
            assert forall|earlier: int| 0 <= earlier < index + 1 implies windows_1252_encoding(
                #[trigger] all.take(index + 1)[earlier],
            ) is Some by {
                if earlier < index {
                    assert(all.take(index as int)[earlier] == all[earlier]);
                }
            }
        }
        index += 1;
    }
    assert(all.take(index as int) =~= all);
    Ok(content)
}

/// The character that makes a comment of a line of a list without keys.
pub const COMMENT_MARK: char = '#';

/// The regular expression that finds an entry in a line of a keyed list, in
/// the syntax of the `regex` crate. Its first group is the plugin's name.
pub const KEYED_LINE_PATTERN: &'static str = "(?i)GameFile[0-9]{1,3}=(.+\\.es(?:m|p))";

#[verifier::external_type_specification]
#[verifier::external_body]
pub struct ExRegexError(regex::Error);

/// Whether `regex::Regex::new` compiles `pattern`.
pub uninterp spec fn regex_compiles(pattern: Seq<char>) -> bool;

/// What the first group of `pattern` holds at the leftmost match in
/// `haystack`, as the `regex` crate finds it; `None` where `pattern` matches
/// nowhere or has no first group, or where the group took no part in the
/// match.
pub uninterp spec fn regex_first_group(pattern: Seq<char>, haystack: Seq<char>) -> Option<
    Seq<char>,
>;

/// Compiles `pattern` with `regex::Regex::new` and searches `haystack` with
/// `Regex::captures` for what the first group holds. Whether the pattern
/// compiles lies with the pattern alone; where it does not, the crate's error
/// comes back. What is found is a function of the pattern and the haystack
/// alone.
#[verifier::external_body]
fn find_first_group(pattern: &str, haystack: &str) -> (found: Result<Option<String>, regex::Error>)
    ensures
        found is Ok <==> regex_compiles(pattern@),
        found matches Ok(group) ==> option_view(group) == regex_first_group(pattern@, haystack@),
{
    let regex = regex::Regex::new(pattern)?;
    Ok(regex.captures(haystack).and_then(|found| found.get(1)).map(|group| group.as_str().to_owned()))
}

/// What `text` holds, if there is one.
pub open spec fn option_view(text: Option<String>) -> Option<Seq<char>> {
    match text {
        Some(text) => Some(text@),
        None => None,
    }
}

/// The plugin name that a line of the active plugins file gives, if it gives
/// one. `first_group` is what the pattern for keyed lines found in the line.
/// In a keyed list the name is what the pattern found, whatever it begins
/// with. In any other list it is the line, unless the line begins with `#`.
/// An empty name is none.
pub open spec fn name_in_line(
    game_id: GameId,
    line: Seq<char>,
    first_group: Option<Seq<char>>,
) -> Option<Seq<char>> {
    if game_id.uses_keyed_list() {
        match first_group {
            Some(found) if found.len() > 0 => Some(found),
            _ => None,
        }
    } else if line.len() == 0 || line[0] == COMMENT_MARK {
        None
    } else {
        Some(line)
    }
}

/// The plugin name that `line` gives, where `pattern` finds the entries of a
/// keyed list.
pub open spec fn plugin_name_in_line(game_id: GameId, pattern: Seq<char>, line: Seq<char>) -> Option<
    Seq<char>,
> {
    name_in_line(game_id, line, regex_first_group(pattern, line))
}

/// The plugin name that `line` gives, if it gives one, given what the pattern
/// for keyed lines found in it: see [`name_in_line`].
pub fn select_plugin_name(line: &str, first_group: Option<String>, game_id: GameId) -> (name:
    Option<String>)
    ensures
        option_view(name) == name_in_line(game_id, line@, option_view(first_group)),
{
    if game_id.uses_keyed_list() {
        match first_group {
            Some(found) => if found.as_str().is_empty() {
                None
            } else {
                Some(found)
            },
            None => None,
        }
    } else if line.is_empty() || line.get_char(0) == COMMENT_MARK {
        None
    } else {
        Some(line.to_owned())
    }
}

/// The plugin name that `line` of the active plugins file gives, if it gives
/// one: see [`plugin_name_in_line`]. Only a line of a keyed list is searched
/// with `pattern`, so the call fails only there, and only where the pattern
/// does not compile.
pub fn plugin_line_mapper(line: &str, pattern: &str, game_id: GameId) -> (name: Result<
    Option<String>,
    LoadOrderError,
>)
    ensures
        name is Err <==> game_id.uses_keyed_list() && !regex_compiles(pattern@),
        match name {
            Ok(name) => option_view(name) == plugin_name_in_line(game_id, pattern@, line@),
            Err(error) => error is InvalidRegex,
        },
{
    if game_id.uses_keyed_list() {
        match find_first_group(pattern, line) {
            Ok(found) => Ok(select_plugin_name(line, found, game_id)),
            Err(_) => Err(LoadOrderError::InvalidRegex),
        }
    } else {
        Ok(select_plugin_name(line, None, game_id))
    }
}

/// The lines of a file as text: each line without the carriage return at its
/// end, decoded.
pub open spec fn decoded_lines(content: Seq<u8>) -> Seq<Seq<char>> {
    Seq::new(
        lines(content).len(),
        |index: int| windows_1252_decoding(without_carriage_return(lines(content)[index])),
    )
}

/// The plugin names that the lines of an active plugins file give, in their
/// order.
pub open spec fn listed_names(game_id: GameId, pattern: Seq<char>, text_lines: Seq<Seq<char>>) -> Seq<
    Seq<char>,
> {
    text_lines.filter_map(|line: Seq<char>| plugin_name_in_line(game_id, pattern, line))
}

/// The lines of `content` as text.
fn decode_lines(content: &[u8]) -> (text_lines: Vec<String>)
    ensures
        string_views(text_lines@) == decoded_lines(content@),
{
    let raw_lines = split_lines(content);
    let ghost all = lines(content@);
    let mut text_lines: Vec<String> = Vec::new();
    let mut index: usize = 0;
    while index < raw_lines.len()
        invariant
            index <= raw_lines@.len(),
            slice_views(raw_lines@) == all,
            text_lines@.len() == index,
            forall|earlier: int|
                0 <= earlier < index ==> windows_1252_decoding(
                    without_carriage_return(#[trigger] all[earlier]),
                ) == text_lines@[earlier]@,
        decreases raw_lines@.len() - index,
    {
        assert(raw_lines@[index as int]@ == all[index as int]);
        text_lines.push(decode_windows_1252(strip_carriage_return(raw_lines[index])));
        index += 1;
    }
    assert(string_views(text_lines@) =~= decoded_lines(content@));
    text_lines
}

/// The names of the plugins that an active plugins file lists, in their
/// order. `content` is all that the file holds. Its lines end in `\n` or
/// `\r\n`, and each is decoded and then read as [`plugin_name_in_line`]
/// says. Reading fails only for a keyed list that has a line, and only where
/// `pattern` does not compile.
pub fn read_plugin_names(content: &[u8], pattern: &str, game_id: GameId) -> (names: Result<
    Vec<String>,
    LoadOrderError,
>)
    ensures
        names is Err <==> game_id.uses_keyed_list() && lines(content@).len() > 0
            && !regex_compiles(pattern@),
        match names {
            Ok(names) => string_views(names@) == listed_names(
                game_id,
                pattern@,
                decoded_lines(content@),
            ),
            Err(error) => error is InvalidRegex,
        },
{
    let text_lines = decode_lines(content);
    let ghost all = string_views(text_lines@);
    let ghost name_in = |line: Seq<char>| plugin_name_in_line(game_id, pattern@, line);
    let mut names: Vec<String> = Vec::new();
    let mut index: usize = 0;
    assert(all.take(0).filter_map(name_in) =~= Seq::empty());
    while index < text_lines.len()
        invariant
            index <= text_lines@.len(),
            all == string_views(text_lines@),
            all == decoded_lines(content@),
            name_in == |line: Seq<char>| plugin_name_in_line(game_id, pattern@, line),
            string_views(names@) == all.take(index as int).filter_map(name_in),
            index > 0 ==> !game_id.uses_keyed_list() || regex_compiles(pattern@),
        decreases text_lines@.len() - index,
    {
        let ghost before = string_views(names@);
        assert(text_lines@[index as int]@ == all[index as int]);
        proof {
            all.lemma_filter_map_take_succ(name_in, index as int);
        }
        match plugin_line_mapper(text_lines[index].as_str(), pattern, game_id) {
            Ok(Some(name)) => {
                names.push(name);
                assert(string_views(names@) =~= before.push(name@));
            },
            Ok(None) => {},
            Err(error) => {
                return Err(error);
            },
        }
        index += 1;
    }
    assert(all.take(index as int) =~= all);
    Ok(names)
}

/// Whether `line` of an active plugins file, read for itself, gives `name`.
pub open spec fn reads_as(
    game_id: GameId,
    pattern: Seq<char>,
    line: Seq<u8>,
    name: Option<Seq<char>>,
) -> bool {
    plugin_name_in_line(game_id, pattern, windows_1252_decoding(without_carriage_return(line)))
        == name
}

/// The names that lines give of which each, read for itself, gives a name or
/// none.
proof fn lemma_names_of_lines(
    game_id: GameId,
    pattern: Seq<char>,
    raw_lines: Seq<Seq<u8>>,
    names: Seq<Option<Seq<char>>>,
)
    requires
        raw_lines.len() == names.len(),
        forall|index: int|
            0 <= index < raw_lines.len() ==> reads_as(
                game_id,
                pattern,
                #[trigger] raw_lines[index],
                names[index],
            ),
    ensures
        listed_names(
            game_id,
            pattern,
            Seq::new(
                raw_lines.len(),
                |index: int| windows_1252_decoding(without_carriage_return(raw_lines[index])),
            ),
        ) == names.filter_map(|name: Option<Seq<char>>| name),
    decreases raw_lines.len(),
{
    let text_of = |index: int| windows_1252_decoding(without_carriage_return(raw_lines[index]));
    let text_lines = Seq::new(raw_lines.len(), text_of);
    let name_in = |line: Seq<char>| plugin_name_in_line(game_id, pattern, line);
    if raw_lines.len() > 0 {
        let fewer = raw_lines.drop_last();
        lemma_names_of_lines(game_id, pattern, fewer, names.drop_last());
        let fewer_text = Seq::new(
            fewer.len(),
            |index: int| windows_1252_decoding(without_carriage_return(fewer[index])),
        );
        assert(text_lines.drop_last() =~= fewer_text);
        assert(reads_as(game_id, pattern, raw_lines[raw_lines.len() - 1], names.last()));
        assert(name_in(text_lines.last()) == names.last());
    } else {
        assert(text_lines =~= Seq::empty());
    }
}

/// A list that is written is read back, if each of its lines is: where every
/// line that is kept of the present file, read for itself, gives no name, and
/// the line of every listed plugin gives that plugin's name and holds no line
/// feed, the new file as a whole gives the names that were listed, in their
/// order.
///
/// Whether a single line is read back lies with Windows-1252 and, for a keyed
/// list, with the pattern for its lines.
pub proof fn lemma_written_names_are_read(
    game_id: GameId,
    pattern: Seq<char>,
    existing_content: Option<Seq<u8>>,
    names: Seq<Seq<char>>,
)
    requires
        all_encodable(names),
        are_single_lines(entry_lines(game_id, names)),
        forall|index: int|
            0 <= index < kept_lines(game_id, existing_content).len() ==> reads_as(
                game_id,
                pattern,
                #[trigger] kept_lines(game_id, existing_content)[index],
                None,
            ),
        forall|index: int|
            0 <= index < names.len() ==> reads_as(
                game_id,
                pattern,
                #[trigger] entry_lines(game_id, names)[index],
                Some(names[index]),
            ),
    ensures
        active_plugins_file_content(
            game_id,
            file_prelude(game_id, existing_content),
            names,
        ) matches Some(content) && listed_names(game_id, pattern, decoded_lines(content)) == names,
{
    let kept = kept_lines(game_id, existing_content);
    let entries = entry_lines(game_id, names);
    assert(file_prelude(game_id, existing_content) == joined(kept));
    assert(are_single_lines(kept)) by {
        match existing_content {
            Some(present) => {
                lemma_lines_are_single(present);
                lemma_first_position(lines(present), |line: Seq<u8>| is_header_line(line));
                assert forall|index: int| 0 <= index < kept.len() implies !(#[trigger] kept[index]).contains(
                    LINE_FEED,
                ) by {
                    assert(kept[index] == lines(present)[index]);
                }
            },
            None => {},
        }
    }
    let content = joined(kept) + joined(entries);
    lemma_lines_of_joined(kept, joined(entries));
    lemma_lines_of_joined_alone(entries);
    let raw_lines = kept + entries;
    assert(lines(content) == raw_lines);
    let read = Seq::new(
        raw_lines.len(),
        |index: int|
            if index < kept.len() {
                None::<Seq<char>>
            } else {
                Some(names[index - kept.len()])
            },
    );
    assert forall|index: int| 0 <= index < raw_lines.len() implies reads_as(
        game_id,
        pattern,
        #[trigger] raw_lines[index],
        read[index],
    ) by {
        if index < kept.len() {
            assert(raw_lines[index] == kept[index]);
        } else {
            assert(raw_lines[index] == entries[index - kept.len()]);
        }
    }
    lemma_names_of_lines(game_id, pattern, raw_lines, read);
    assert(decoded_lines(content) =~= Seq::new(
        raw_lines.len(),
        |index: int| windows_1252_decoding(without_carriage_return(raw_lines[index])),
    ));
    lemma_read_names(read, kept.len() as int, names);
}

/// What is left of names that were read where the first lines gave none and
/// each further line gave one.
proof fn lemma_read_names(read: Seq<Option<Seq<char>>>, skipped: int, names: Seq<Seq<char>>)
    requires
        0 <= skipped,
        read.len() == skipped + names.len(),
        forall|index: int| 0 <= index < skipped ==> read[index] is None,
        forall|index: int| 0 <= index < names.len() ==> read[skipped + index] == Some(names[index]),
    ensures
        read.filter_map(|name: Option<Seq<char>>| name) == names,
    decreases read.len(),
{
    if read.len() == 0 {
        assert(names =~= Seq::empty());
    } else if names.len() == 0 {
        lemma_read_names(read.drop_last(), skipped - 1, names);
        assert(read[skipped - 1] is None);
    } else {
        lemma_read_names(read.drop_last(), skipped, names.drop_last());
        assert(read[skipped + (names.len() - 1)] == Some(names[names.len() - 1]));
        assert(names =~= names.drop_last() + seq![names.last()]);
    }
}

} // verus!
