//! What holds of reading and writing a credentials file, proved of the
//! description of the format.

use crate::codec::{
    classify, commit, initial_state, parse_lines, parse_text, run, section_text,
    serialize_text, setting_text, step, Line, ParseState,
};
use crate::credentials::CredentialsView;
use crate::store::{
    as_map, contains_name, distinct_names, lemma_lookup_without, lemma_position_is,
    lemma_upsert_distinct, lookup, without, ProfileView,
};
use crate::text::{
    first_index, is_trimmed, is_whitespace, join_lines, lemma_first_index, lemma_first_index_is,
    lemma_trim_end_shape, lemma_trim_end_skips, lemma_trim_is_trimmed, lemma_trim_start_shape,
    lemma_trim_start_skips, split_lines, trim, trim_end, trim_start,
};
use vstd::prelude::*;

verus! {

/// The text holds no line feed.
pub open spec fn is_one_line(text: Seq<char>) -> bool {
    forall|i: int| 0 <= i < text.len() ==> text[i] != '\n'
}

/// A text that begins with a line and its line feed splits into that line and
/// the lines of the rest.
pub proof fn lemma_split_first_line(line: Seq<char>, rest: Seq<char>)
    requires
        is_one_line(line),
    ensures
        split_lines(line + seq!['\n'] + rest) == seq![line] + split_lines(rest),
{
    let text = line + seq!['\n'] + rest;
    assert(text[line.len() as int] == '\n');
    assert forall|i: int| 0 <= i < line.len() implies text[i] != '\n' by {
        assert(text[i] == line[i]);
    }
    lemma_first_index_is(text, '\n', line.len() as int);
    assert(text.take(line.len() as int) =~= line);
    assert(text.skip(line.len() as int + 1) =~= rest);
}

/// Splitting undoes joining.
pub proof fn lemma_split_join(lines: Seq<Seq<char>>)
    requires
        lines.len() > 0,
        forall|i: int| 0 <= i < lines.len() ==> is_one_line(#[trigger] lines[i]),
    ensures
        split_lines(join_lines(lines)) == lines,
    decreases lines.len(),
{
    if lines.len() == 1 {
        let text = lines.first();
        lemma_first_index_is(text, '\n', text.len() as int);
        assert(seq![text] =~= lines);
    } else {
        let rest = lines.drop_first();
        assert forall|i: int| 0 <= i < rest.len() implies is_one_line(#[trigger] rest[i]) by {
            assert(rest[i] == lines[i + 1]);
        }
        lemma_split_join(rest);
        lemma_split_first_line(lines.first(), join_lines(rest));
        assert(seq![lines.first()] + rest =~= lines);
    }
}

/// The key of a setting that the reader knows.
pub open spec fn is_known_key(key: Seq<char>) -> bool {
    ||| key == "aws_access_key_id"@
    ||| key == "aws_secret_access_key"@
    ||| key == "aws_session_token"@
}

/// A line that the reader passes over: a blank line, a comment, a line
/// without `=`, or a setting whose key it does not know.
pub open spec fn is_passed_over(raw: Seq<char>) -> bool {
    match classify(raw) {
        Line::Blank => true,
        Line::Comment => true,
        Line::Other => true,
        Line::Setting { key, value } => !is_known_key(key),
        Line::Header { name } => false,
    }
}

/// From any state, the reader ends up the same with or without a line that
/// it passes over.
proof fn lemma_run_without(state: ParseState, lines: Seq<Seq<char>>, at: int)
    requires
        0 <= at < lines.len(),
        is_passed_over(lines[at]),
    ensures
        run(state, lines.remove(at)) == run(state, lines),
    decreases at,
{
    if at == 0 {
        assert(lines.remove(0) =~= lines.drop_first());
    } else {
        let shorter = lines.remove(at);
        assert(shorter.first() == lines.first());
        assert(shorter.drop_first() =~= lines.drop_first().remove(at - 1));
        lemma_run_without(step(state, lines.first()), lines.drop_first(), at - 1);
    }
}

/// Comments, blank lines, lines without `=` and settings of unknown keys
/// leave no trace: the lines hold the same profiles with or without any one
/// of them.
pub proof fn lemma_passed_over_line(lines: Seq<Seq<char>>, at: int)
    requires
        0 <= at < lines.len(),
        is_passed_over(lines[at]),
    ensures
        parse_lines(lines.remove(at)) == parse_lines(lines),
{
    lemma_run_without(initial_state(), lines, at);
}

/// The same of a file's text: a file holds the same profiles with or without
/// a line that is passed over.
pub proof fn lemma_passed_over_line_of_text(lines: Seq<Seq<char>>, at: int)
    requires
        forall|i: int| 0 <= i < lines.len() ==> is_one_line(#[trigger] lines[i]),
        0 <= at < lines.len(),
        is_passed_over(lines[at]),
    ensures
        parse_text(join_lines(lines.remove(at))) == parse_text(join_lines(lines)),
{
    let shorter = lines.remove(at);
    lemma_split_join(lines);
    lemma_passed_over_line(lines, at);
    if shorter.len() > 0 {
        assert forall|i: int| 0 <= i < shorter.len() implies is_one_line(
            #[trigger] shorter[i],
        ) by {
            if i < at {
                assert(shorter[i] == lines[i]);
            } else {
                assert(shorter[i] == lines[i + 1]);
            }
        }
        lemma_split_join(shorter);
    } else {
        let nothing = Seq::<char>::empty();
        assert(join_lines(shorter) == nothing);
        assert(split_lines(nothing) =~= seq![nothing]);
        assert(trim(nothing) == nothing);
        assert(classify(nothing) == Line::Blank);
        assert(seq![nothing].drop_first() =~= shorter);
        assert(run(initial_state(), seq![nothing]) == run(
            step(initial_state(), nothing),
            shorter,
        ));
    }
}

/// A key that a line can begin with and be read as a setting: it holds no
/// white space and no `=`, and begins with neither `[` nor `#`.
pub open spec fn is_plain_key(key: Seq<char>) -> bool {
    &&& key.len() > 0
    &&& key.first() != '['
    &&& key.first() != '#'
    &&& forall|i: int| 0 <= i < key.len() ==> !is_whitespace(key[i]) && key[i] != '='
}

/// A value that is read back as it was written: it holds no line feed and
/// neither begins nor ends with white space.
pub open spec fn is_plain_value(value: Seq<char>) -> bool {
    is_one_line(value) && is_trimmed(value)
}

/// A profile that is read back as it was written: its name holds no line
/// feed, and so do its values, which neither begin nor end with white space.
pub open spec fn is_plain_profile(profile: ProfileView) -> bool {
    &&& is_one_line(profile.name)
    &&& is_plain_value(profile.credentials.access_key_id)
    &&& is_plain_value(profile.credentials.secret_access_key)
    &&& match profile.credentials.session_token {
        Some(token) => is_plain_value(token),
        None => true,
    }
}

/// A name in brackets is read as the header of that name.
pub proof fn lemma_classify_header(name: Seq<char>)
    ensures
        classify(seq!['['] + name + seq![']']) == (Line::Header { name }),
{
    let raw = seq!['['] + name + seq![']'];
    assert(raw.first() == '[' && raw.last() == ']');
    assert(trim_start(raw) == raw);
    assert(trim_end(raw) == raw);
    assert(raw.subrange(1, raw.len() - 1) =~= name);
}

/// A plain key, ` = ` and a trimmed value are read as the setting of that key
/// to that value.
pub proof fn lemma_classify_setting(key: Seq<char>, value: Seq<char>)
    requires
        is_plain_key(key),
        is_trimmed(value),
    ensures
        classify(key + " = "@ + value) == (Line::Setting { key, value }),
{
    reveal_strlit(" = ");
    let raw = key + " = "@ + value;
    let width = key.len() as int;
    assert(raw.first() == key.first());
    assert(trim_start(raw) == raw);
    let line = trim(raw);
    if value.len() > 0 {
        assert(raw.last() == value.last());
        assert(line == raw);
    } else {
        assert(raw.last() == ' ');
        let shorter = raw.drop_last();
        assert(shorter.last() == '=');
        assert(trim_end(shorter) == shorter);
        assert(line == shorter);
    }
    assert(line.len() >= width + 2);
    assert forall|i: int| 0 <= i < line.len() implies line[i] == raw[i] by {}
    assert forall|i: int| 0 <= i < width implies line[i] == key[i] by {}
    assert(line[width] == ' ' && line[width + 1] == '=');
    assert(line.first() == key.first());
    assert forall|i: int| 0 <= i < width + 1 implies line[i] != '=' by {
        if i < width {
            assert(line[i] == key[i]);
        }
    }
    lemma_first_index_is(line, '=', width + 1);
    let left = line.take(width + 1);
    assert(left =~= key + seq![' ']);
    assert(trim_start(left) == left) by {
        assert(left.first() == key.first());
    }
    assert(trim_end(left) == key) by {
        lemma_trim_end_skips(key, seq![' ']);
        assert(!is_whitespace(key.last()));
    }
    let right = line.skip(width + 2);
    if value.len() > 0 {
        assert(right =~= seq![' '] + value);
        lemma_trim_start_skips(seq![' '], value);
    } else {
        assert(right =~= value);
    }
}

/// The three keys of the format are plain, and no two of them are the same.
pub proof fn lemma_known_keys()
    ensures
        is_plain_key("aws_access_key_id"@),
        is_plain_key("aws_secret_access_key"@),
        is_plain_key("aws_session_token"@),
        "aws_access_key_id"@ != "aws_secret_access_key"@,
        "aws_access_key_id"@ != "aws_session_token"@,
        "aws_secret_access_key"@ != "aws_session_token"@,
{
    reveal_strlit("aws_access_key_id");
    reveal_strlit("aws_secret_access_key");
    reveal_strlit("aws_session_token");
    assert("aws_access_key_id"@[4] != "aws_session_token"@[4]);
}

/// A text that begins with a line and its line feed is read by reading that
/// line and then the rest.
pub proof fn lemma_read_line(state: ParseState, line: Seq<char>, rest: Seq<char>)
    requires
        is_one_line(line),
    ensures
        run(state, split_lines(line + seq!['\n'] + rest)) == run(
            step(state, line),
            split_lines(rest),
        ),
{
    lemma_split_first_line(line, rest);
    let lines = seq![line] + split_lines(rest);
    assert(lines.first() == line);
    assert(lines.drop_first() =~= split_lines(rest));
}

/// The line that sets a plain key to a plain value is read as that setting.
proof fn lemma_read_setting(state: ParseState, key: Seq<char>, value: Seq<char>, rest: Seq<char>)
    requires
        is_plain_key(key),
        is_plain_value(value),
    ensures
        run(state, split_lines(setting_text(key, value) + rest)) == run(
            step(state, key + " = "@ + value),
            split_lines(rest),
        ),
        classify(key + " = "@ + value) == (Line::Setting { key, value }),
{
    reveal_strlit(" = ");
    reveal_strlit("\n");
    let line = key + " = "@ + value;
    assert(is_one_line(line)) by {
        assert forall|i: int| 0 <= i < line.len() implies line[i] != '\n' by {
            if i < key.len() {
                assert(line[i] == key[i]);
                assert(is_whitespace('\n'));
            } else if i >= key.len() + 3 {
                assert(line[i] == value[i - key.len() - 3]);
            }
        }
    }
    assert(setting_text(key, value) + rest =~= line + seq!['\n'] + rest);
    lemma_read_line(state, line, rest);
    lemma_classify_setting(key, value);
}

/// Reading the section of a plain profile commits what was open and leaves
/// that profile open.
pub proof fn lemma_read_section(state: ParseState, profile: ProfileView, rest: Seq<char>)
    requires
        is_plain_profile(profile),
    ensures
        run(state, split_lines(section_text(profile) + rest)) == run(
            ParseState { committed: commit(state), current: Some(profile) },
            split_lines(rest),
        ),
{
    reveal_strlit("[");
    reveal_strlit("]\n");
    reveal_strlit("\n");
    lemma_known_keys();
    let held = profile.credentials;
    let header = seq!['['] + profile.name + seq![']'];
    let id_text = setting_text("aws_access_key_id"@, held.access_key_id);
    let secret_text = setting_text("aws_secret_access_key"@, held.secret_access_key);
    let token_text = match held.session_token {
        Some(token) => setting_text("aws_session_token"@, token),
        None => Seq::<char>::empty(),
    };
    let after_token = seq!['\n'] + rest;
    let after_secret = token_text + after_token;
    let after_id = secret_text + after_secret;
    let after_header = id_text + after_id;
    assert(section_text(profile) + rest =~= header + seq!['\n'] + after_header);

    let opened = ParseState {
        committed: commit(state),
        current: Some(ProfileView { name: profile.name, credentials: CredentialsView::unset() }),
    };
    assert(is_one_line(header));
    lemma_classify_header(profile.name);
    lemma_read_line(state, header, after_header);
    assert(step(state, header) == opened);

    let with_id = ParseState {
        committed: commit(state),
        current: Some(
            ProfileView {
                name: profile.name,
                credentials: CredentialsView {
                    access_key_id: held.access_key_id,
                    ..CredentialsView::unset()
                },
            },
        ),
    };
    lemma_read_setting(opened, "aws_access_key_id"@, held.access_key_id, after_id);
    assert(step(opened, "aws_access_key_id"@ + " = "@ + held.access_key_id) == with_id);

    let with_secret = ParseState {
        committed: commit(state),
        current: Some(
            ProfileView {
                name: profile.name,
                credentials: CredentialsView {
                    access_key_id: held.access_key_id,
                    secret_access_key: held.secret_access_key,
                    session_token: None,
                },
            },
        ),
    };
    lemma_read_setting(with_id, "aws_secret_access_key"@, held.secret_access_key, after_secret);
    assert(step(with_id, "aws_secret_access_key"@ + " = "@ + held.secret_access_key)
        == with_secret);

    let complete = ParseState { committed: commit(state), current: Some(profile) };
    match held.session_token {
        Some(token) => {
            lemma_read_setting(with_secret, "aws_session_token"@, token, after_token);
            assert(step(with_secret, "aws_session_token"@ + " = "@ + token) == complete);
        },
        None => {
            assert(after_secret =~= after_token);
            assert(with_secret == complete);
        },
    }
    let nothing = Seq::<char>::empty();
    assert(after_token =~= nothing + seq!['\n'] + rest);
    lemma_read_line(complete, nothing, rest);
    assert(trim(nothing) == nothing);
    assert(step(complete, nothing) == complete);
}

/// The reader after the sections of these profiles: all but the last are
/// committed, the last is open.
pub open spec fn after_sections(state: ParseState, profiles: Seq<ProfileView>) -> ParseState
    decreases profiles.len(),
{
    if profiles.len() == 0 {
        state
    } else {
        ParseState {
            committed: commit(after_sections(state, profiles.drop_last())),
            current: Some(profiles.last()),
        }
    }
}

/// Reading the text that was written for plain profiles reads one section
/// after the other.
pub proof fn lemma_read_sections(state: ParseState, profiles: Seq<ProfileView>, rest: Seq<char>)
    requires
        forall|i: int| 0 <= i < profiles.len() ==> is_plain_profile(#[trigger] profiles[i]),
    ensures
        run(state, split_lines(serialize_text(profiles) + rest)) == run(
            after_sections(state, profiles),
            split_lines(rest),
        ),
    decreases profiles.len(),
{
    if profiles.len() == 0 {
        assert(serialize_text(profiles) + rest =~= rest);
    } else {
        let before = profiles.drop_last();
        let last = profiles.last();
        assert forall|i: int| 0 <= i < before.len() implies is_plain_profile(
            #[trigger] before[i],
        ) by {
            assert(before[i] == profiles[i]);
        }
        assert(serialize_text(profiles) + rest =~= serialize_text(before) + (section_text(last)
            + rest));
        lemma_read_sections(state, before, section_text(last) + rest);
        lemma_read_section(after_sections(state, before), last, rest);
    }
}

/// Committing sections of distinct names, one after the other, gives the
/// profiles in their order.
pub proof fn lemma_commit_after_sections(profiles: Seq<ProfileView>)
    requires
        distinct_names(profiles),
    ensures
        commit(after_sections(initial_state(), profiles)) == profiles,
    decreases profiles.len(),
{
    if profiles.len() > 0 {
        let before = profiles.drop_last();
        let last = profiles.last();
        assert(distinct_names(before)) by {
            assert forall|i: int, j: int| 0 <= i < j < before.len() implies (
            #[trigger] before[i]).name != (#[trigger] before[j]).name by {
                assert(before[i] == profiles[i] && before[j] == profiles[j]);
            }
        }
        lemma_commit_after_sections(before);
        assert(!contains_name(before, last.name)) by {
            assert forall|i: int| 0 <= i < before.len() implies (#[trigger] before[i]).name
                != last.name by {
                assert(before[i] == profiles[i]);
                assert(profiles[profiles.len() - 1] == last);
            }
        }
        assert(before.push(last) =~= profiles);
    }
}

/// Round trip. Profiles of distinct names that are plain are read back from
/// the text that was written for them exactly as they were: the same
/// profiles in the same order, and so the same mapping from name to
/// credentials.
///
/// A profile is plain when its name and its values hold no line feed and its
/// values neither begin nor end with white space. In particular this holds of
/// profiles whose strings hold none of `=`, `[`, `]` and line feed and whose
/// values have no white space at either end.
pub proof fn lemma_round_trip(profiles: Seq<ProfileView>)
    requires
        distinct_names(profiles),
        forall|i: int| 0 <= i < profiles.len() ==> is_plain_profile(#[trigger] profiles[i]),
    ensures
        parse_text(serialize_text(profiles)) == profiles,
        as_map(parse_text(serialize_text(profiles))) == as_map(profiles),
{
    let nothing = Seq::<char>::empty();
    let text = serialize_text(profiles);
    assert(text + nothing =~= text);
    lemma_read_sections(initial_state(), profiles, nothing);
    let state = after_sections(initial_state(), profiles);
    assert(split_lines(nothing) =~= seq![nothing]);
    assert(seq![nothing].drop_first() =~= Seq::<Seq<char>>::empty());
    assert(trim(nothing) == nothing);
    assert(run(state, seq![nothing]) == run(step(state, nothing), seq![nothing].drop_first()));
    lemma_commit_after_sections(profiles);
}

/// Saving twice. What is written for plain profiles of distinct names, read
/// and written again, is the same text, character by character.
pub proof fn lemma_save_load_save(profiles: Seq<ProfileView>)
    requires
        distinct_names(profiles),
        forall|i: int| 0 <= i < profiles.len() ==> is_plain_profile(#[trigger] profiles[i]),
    ensures
        serialize_text(parse_text(serialize_text(profiles))) == serialize_text(profiles),
{
    lemma_round_trip(profiles);
}

/// Every line that splitting gives holds no line feed.
pub proof fn lemma_split_lines_are_lines(text: Seq<char>)
    ensures
        forall|i: int|
            0 <= i < split_lines(text).len() ==> is_one_line(#[trigger] split_lines(text)[i]),
    decreases text.len(),
{
    lemma_first_index(text, '\n');
    let end = first_index(text, '\n') as int;
    if end >= text.len() {
        assert(is_one_line(text));
    } else {
        let head = text.take(end);
        let tail = split_lines(text.skip(end + 1));
        lemma_split_lines_are_lines(text.skip(end + 1));
        assert(is_one_line(head)) by {
            assert forall|i: int| 0 <= i < head.len() implies head[i] != '\n' by {
                assert(head[i] == text[i]);
            }
        }
        let lines = split_lines(text);
        assert forall|i: int| 0 <= i < lines.len() implies is_one_line(#[trigger] lines[i]) by {
            if i > 0 {
                assert(lines[i] == tail[i - 1]);
            }
        }
    }
}

/// What trimming leaves of a line is a plain value.
pub proof fn lemma_trim_is_plain(text: Seq<char>)
    requires
        is_one_line(text),
    ensures
        is_plain_value(trim(text)),
{
    lemma_trim_is_trimmed(text);
    lemma_trim_start_shape(text);
    let inner = trim_start(text);
    lemma_trim_end_shape(inner);
    let outer = trim_end(inner);
    assert forall|i: int| 0 <= i < outer.len() implies outer[i] != '\n' by {
        assert(outer[i] == inner[i]);
        assert(inner[i] == text[i + text.len() - inner.len()]);
    }
}

/// The reader holds plain profiles only, the committed ones under distinct
/// names.
pub open spec fn is_plain_state(state: ParseState) -> bool {
    &&& distinct_names(state.committed)
    &&& forall|i: int|
        0 <= i < state.committed.len() ==> is_plain_profile(#[trigger] state.committed[i])
    &&& match state.current {
        Some(section) => is_plain_profile(section),
        None => true,
    }
}

/// Committing keeps the profiles plain and their names distinct.
pub proof fn lemma_commit_is_plain(state: ParseState)
    requires
        is_plain_state(state),
    ensures
        distinct_names(commit(state)),
        forall|i: int| 0 <= i < commit(state).len() ==> is_plain_profile(#[trigger] commit(state)[i]),
{
    match state.current {
        Some(section) => {
            lemma_upsert_distinct(state.committed, section.name, section.credentials);
            let after = commit(state);
            assert forall|i: int| 0 <= i < after.len() implies is_plain_profile(
                #[trigger] after[i],
            ) by {
                if i < state.committed.len() && after[i] != section {
                    assert(after[i] == state.committed[i]);
                }
            }
        },
        None => {},
    }
}

/// Reading a line keeps the reader's profiles plain.
pub proof fn lemma_step_is_plain(state: ParseState, raw: Seq<char>)
    requires
        is_plain_state(state),
        is_one_line(raw),
    ensures
        is_plain_state(step(state, raw)),
{
    lemma_trim_is_plain(raw);
    let line = trim(raw);
    match classify(raw) {
        Line::Header { name } => {
            lemma_commit_is_plain(state);
            assert forall|i: int| 0 <= i < name.len() implies name[i] != '\n' by {
                assert(name[i] == line[i + 1]);
            }
        },
        Line::Setting { key, value } => {
            let split = first_index(line, '=') as int;
            lemma_first_index(line, '=');
            let right = line.skip(split + 1);
            assert(is_one_line(right)) by {
                assert forall|i: int| 0 <= i < right.len() implies right[i] != '\n' by {
                    assert(right[i] == line[i + split + 1]);
                }
            }
            lemma_trim_is_plain(right);
        },
        _ => {},
    }
}

/// Reading lines keeps the reader's profiles plain.
pub proof fn lemma_run_is_plain(state: ParseState, lines: Seq<Seq<char>>)
    requires
        is_plain_state(state),
        forall|i: int| 0 <= i < lines.len() ==> is_one_line(#[trigger] lines[i]),
    ensures
        is_plain_state(run(state, lines)),
    decreases lines.len(),
{
    if lines.len() > 0 {
        let rest = lines.drop_first();
        assert forall|i: int| 0 <= i < rest.len() implies is_one_line(#[trigger] rest[i]) by {
            assert(rest[i] == lines[i + 1]);
        }
        lemma_step_is_plain(state, lines.first());
        lemma_run_is_plain(step(state, lines.first()), rest);
    }
}

/// Whatever the text, the profiles read from it have distinct names and are
/// plain: they are the profiles that a round trip gives back unchanged, and
/// no others are.
pub proof fn lemma_parsed_profiles_are_plain(text: Seq<char>)
    ensures
        distinct_names(parse_text(text)),
        forall|i: int|
            0 <= i < parse_text(text).len() ==> is_plain_profile(#[trigger] parse_text(text)[i]),
{
    lemma_split_lines_are_lines(text);
    lemma_run_is_plain(initial_state(), split_lines(text));
    lemma_commit_is_plain(run(initial_state(), split_lines(text)));
}

/// Loading, saving and loading again. Whatever the text of a file, writing
/// the profiles read from it gives a text that holds the same profiles, and
/// writing those gives the same text again.
pub proof fn lemma_load_save_load(text: Seq<char>)
    ensures
        parse_text(serialize_text(parse_text(text))) == parse_text(text),
        serialize_text(parse_text(serialize_text(parse_text(text)))) == serialize_text(
            parse_text(text),
        ),
{
    lemma_parsed_profiles_are_plain(text);
    lemma_round_trip(parse_text(text));
}

/// Missing fields. A section that sets nothing but its access key id holds
/// that id, an empty secret access key and no session token.
pub proof fn lemma_missing_fields_unset(name: Seq<char>, id: Seq<char>)
    requires
        is_trimmed(id),
    ensures
        parse_lines(seq![seq!['['] + name + seq![']'], "aws_access_key_id"@ + " = "@ + id])
            == seq![
            ProfileView {
                name,
                credentials: CredentialsView { access_key_id: id, ..CredentialsView::unset() },
            },
        ],
{
    let header = seq!['['] + name + seq![']'];
    let setting = "aws_access_key_id"@ + " = "@ + id;
    let lines = seq![header, setting];
    lemma_known_keys();
    lemma_classify_header(name);
    lemma_classify_setting("aws_access_key_id"@, id);
    let opened = step(initial_state(), header);
    let set = step(opened, setting);
    assert(lines.drop_first() =~= seq![setting]);
    assert(seq![setting].drop_first() =~= Seq::<Seq<char>>::empty());
    assert(run(initial_state(), lines) == run(opened, seq![setting]));
    assert(run(opened, seq![setting]) == run(set, Seq::<Seq<char>>::empty()));
    assert(commit(set) =~= seq![
        ProfileView {
            name,
            credentials: CredentialsView { access_key_id: id, ..CredentialsView::unset() },
        },
    ]);
}

/// Overwriting. Of two sections of the same name, the later one is what the
/// file holds under that name, and nothing of the earlier one is left.
pub proof fn lemma_later_section_wins(earlier: ProfileView, later: ProfileView)
    requires
        is_plain_profile(earlier),
        is_plain_profile(later),
        earlier.name == later.name,
    ensures
        parse_text(section_text(earlier) + section_text(later)) == seq![later],
{
    let nothing = Seq::<char>::empty();
    assert(section_text(later) + nothing =~= section_text(later));
    lemma_read_section(initial_state(), earlier, section_text(later));
    let first = ParseState { committed: commit(initial_state()), current: Some(earlier) };
    lemma_read_section(first, later, nothing);
    let second = ParseState { committed: commit(first), current: Some(later) };
    assert(split_lines(nothing) =~= seq![nothing]);
    assert(seq![nothing].drop_first() =~= Seq::<Seq<char>>::empty());
    assert(trim(nothing) == nothing);
    assert(run(second, seq![nothing]) == run(step(second, nothing), seq![nothing].drop_first()));
    let committed = commit(first);
    assert(committed =~= seq![earlier]);
    assert(committed[0].name == later.name);
    lemma_position_is(committed, 0);
    assert(commit(second) =~= seq![later]);
}

/// Removal. Once a profile has been taken out it is gone, and taking it out
/// again finds nothing and changes nothing.
pub proof fn lemma_remove_twice(profiles: Seq<ProfileView>, name: Seq<char>)
    requires
        distinct_names(profiles),
    ensures
        !contains_name(without(profiles, name), name),
        lookup(without(profiles, name), name) is None,
        without(without(profiles, name), name) == without(profiles, name),
{
    lemma_lookup_without(profiles, name, name);
}

} // verus!
