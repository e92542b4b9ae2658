//! The text of a credentials file: how it is read and how it is written.
//!
//! A file is read line by line. A line `[name]` opens the section of a
//! profile; the lines `key = value` that follow set its fields; blank lines,
//! lines that begin with `#`, lines without `=` and unknown keys are passed
//! over. A section is committed to the profiles when the next one opens or
//! the text ends, and a later section of the same name replaces the earlier
//! one.

use crate::credentials::{Credentials, CredentialsView};
use crate::error::Error;
use crate::store::{distinct_names, upsert, ProfileStore, ProfileView};
use crate::text::{find_char, first_index, range_is, split_lines, to_chars, trim, trim_bounds};
use vstd::prelude::*;

verus! {

/// What a line of the file is, once the white space around it is gone.
pub enum Line {
    /// Nothing but white space.
    Blank,
    /// `[name]`: the section of the profile `name` begins.
    Header { name: Seq<char> },
    /// A line that begins with `#`.
    Comment,
    /// `key = value`, split at the first `=`, both sides trimmed.
    Setting { key: Seq<char>, value: Seq<char> },
    /// Any other line: it holds no `=`.
    Other,
}

/// Reads one line. A line in brackets is a header even if it begins with
/// `[#`; a comment is a comment even if it holds a `=`.
pub open spec fn classify(raw: Seq<char>) -> Line {
    let line = trim(raw);
    if line.len() == 0 {
        Line::Blank
    } else if line.first() == '[' && line.last() == ']' {
        Line::Header { name: line.subrange(1, line.len() - 1) }
    } else if line.first() == '#' {
        Line::Comment
    } else {
        let split = first_index(line, '=') as int;
        if split < line.len() {
            Line::Setting { key: trim(line.take(split)), value: trim(line.skip(split + 1)) }
        } else {
            Line::Other
        }
    }
}

/// The credentials after `key = value` has been read: one of the three known
/// keys sets its field, any other key changes nothing.
pub open spec fn assign(
    credentials: CredentialsView,
    key: Seq<char>,
    value: Seq<char>,
) -> CredentialsView {
    if key == "aws_access_key_id"@ {
        CredentialsView { access_key_id: value, ..credentials }
    } else if key == "aws_secret_access_key"@ {
        CredentialsView { secret_access_key: value, ..credentials }
    } else if key == "aws_session_token"@ {
        CredentialsView { session_token: Some(value), ..credentials }
    } else {
        credentials
    }
}

/// Where the reader stands between two lines: the profiles committed so far,
/// and the section that is open, if one is.
pub struct ParseState {
    pub committed: Seq<ProfileView>,
    pub current: Option<ProfileView>,
}

/// The reader before the first line.
pub open spec fn initial_state() -> ParseState {
    ParseState { committed: Seq::empty(), current: None }
}

/// The profiles once the open section, if any, has been committed.
pub open spec fn commit(state: ParseState) -> Seq<ProfileView> {
    match state.current {
        Some(section) => upsert(state.committed, section.name, section.credentials),
        None => state.committed,
    }
}

/// The reader after one more line.
pub open spec fn step(state: ParseState, raw: Seq<char>) -> ParseState {
    match classify(raw) {
        Line::Header { name } => ParseState {
            committed: commit(state),
            current: Some(ProfileView { name, credentials: CredentialsView::unset() }),
        },
        Line::Setting { key, value } => match state.current {
            Some(section) => ParseState {
                committed: state.committed,
                current: Some(
                    ProfileView {
                        name: section.name,
                        credentials: assign(section.credentials, key, value),
                    },
                ),
            },
            None => state,
        },
        _ => state,
    }
}

/// The reader after these lines, from first to last.
pub open spec fn run(state: ParseState, lines: Seq<Seq<char>>) -> ParseState
    decreases lines.len(),
{
    if lines.len() == 0 {
        state
    } else {
        run(step(state, lines.first()), lines.drop_first())
    }
}

/// The profiles that a file of these lines holds.
pub open spec fn parse_lines(lines: Seq<Seq<char>>) -> Seq<ProfileView> {
    commit(run(initial_state(), lines))
}

/// The profiles that a file of this text holds.
pub open spec fn parse_text(text: Seq<char>) -> Seq<ProfileView> {
    parse_lines(split_lines(text))
}

/// The line that sets `key` to `value`, with its line feed.
pub open spec fn setting_text(key: Seq<char>, value: Seq<char>) -> Seq<char> {
    key + " = "@ + value + "\n"@
}

/// The section of one profile: its header, its two keys, its session token
/// if it has one, and an empty line.
pub open spec fn section_text(profile: ProfileView) -> Seq<char> {
    "["@ + profile.name + "]\n"@ + setting_text(
        "aws_access_key_id"@,
        profile.credentials.access_key_id,
    ) + setting_text("aws_secret_access_key"@, profile.credentials.secret_access_key)
        + match profile.credentials.session_token {
        Some(token) => setting_text("aws_session_token"@, token),
        None => Seq::empty(),
    } + "\n"@
}

/// The text of a file that holds these profiles, in their order.
pub open spec fn serialize_text(profiles: Seq<ProfileView>) -> Seq<char>
    decreases profiles.len(),
{
    if profiles.len() == 0 {
        Seq::empty()
    } else {
        serialize_text(profiles.drop_last()) + section_text(profiles.last())
    }
}

/// The section that the reader has open.
struct Section {
    name: String,
    credentials: Credentials,
}

/// The reader at work.
struct Reader {
    store: ProfileStore,
    current: Option<Section>,
}

impl Reader {
    spec fn state(self) -> ParseState {
        ParseState {
            committed: self.store@,
            current: match self.current {
                Some(section) => Some(
                    ProfileView { name: section.name@, credentials: section.credentials@ },
                ),
                None => None,
            },
        }
    }

    fn new() -> (reader: Reader)
        ensures
            reader.state() == initial_state(),
    {
        Reader { store: ProfileStore::new(), current: None }
    }

    /// Commits the open section, if any, and hands the profiles out.
    fn finish(self) -> (store: ProfileStore)
        ensures
            store@ == commit(self.state()),
    {
        let Reader { store, current } = self;
        let mut store = store;
        match current {
            Some(section) => {
                store.insert(section.name.as_str(), section.credentials);
            },
            None => {},
        }
        store
    }

    /// Reads the line that the characters from `start` up to `end` make.
    fn feed(self, text: &str, chars: &Vec<char>, start: usize, end: usize) -> (next: Reader)
        requires
            chars@ == text@,
            start <= end <= chars@.len(),
        ensures
            next.state() == step(self.state(), chars@.subrange(start as int, end as int)),
    {
        let ghost raw = chars@.subrange(start as int, end as int);
        let (from, to) = trim_bounds(chars, start, end);
        let ghost line = chars@.subrange(from as int, to as int);
        if from == to {
            return self;
        }
        assert(line.first() == chars@[from as int] && line.last() == chars@[to - 1]);
        if chars[from] == '[' && chars[to - 1] == ']' {
            assert(line.subrange(1, line.len() - 1) =~= text@.subrange(from + 1, to - 1));
            let name = text.substring_char(from + 1, to - 1).to_owned();
            let store = self.finish();
            return Reader {
                store,
                current: Some(Section { name, credentials: Credentials::default() }),
            };
        }
        if chars[from] == '#' {
            return self;
        }
        let split = find_char(chars, from, to, '=');
        if split == to {
            return self;
        }
        let (key_from, key_to) = trim_bounds(chars, from, split);
        let (value_from, value_to) = trim_bounds(chars, split + 1, to);
        let ghost key = chars@.subrange(key_from as int, key_to as int);
        let ghost value = chars@.subrange(value_from as int, value_to as int);
        proof {
            assert(line.take(split - from) =~= chars@.subrange(from as int, split as int));
            assert(line.skip(split - from + 1) =~= chars@.subrange(split + 1, to as int));
            assert(classify(raw) == Line::Setting { key, value });
        }
        let Reader { store, current } = self;
        match current {
            Some(section) => {
                let Section { name, credentials } = section;
                let mut credentials = credentials;
                if range_is(chars, key_from, key_to, "aws_access_key_id") {
                    credentials.access_key_id = text.substring_char(value_from, value_to).to_owned();
                } else if range_is(chars, key_from, key_to, "aws_secret_access_key") {
                    credentials.secret_access_key = text.substring_char(
                        value_from,
                        value_to,
                    ).to_owned();
                } else if range_is(chars, key_from, key_to, "aws_session_token") {
                    credentials.session_token = Some(
                        text.substring_char(value_from, value_to).to_owned(),
                    );
                }
                Reader { store, current: Some(Section { name, credentials }) }
            },
            None => Reader { store, current: None },
        }
    }
}

/// Reads the profiles out of the text of a credentials file. No text is
/// refused: what is not understood is passed over.
pub fn parse(data: &str) -> (outcome: Result<ProfileStore, Error>)
    ensures
        outcome matches Ok(store) && store@ == parse_text(data@),
{
    let chars = to_chars(data);
    let mut reader = Reader::new();
    let mut start: usize = 0;
    let mut done = false;
    assert(chars@.skip(0) =~= chars@);
    while !done
        invariant
            chars@ == data@,
            start <= chars@.len(),
            !done ==> run(reader.state(), split_lines(chars@.skip(start as int))) == run(
                initial_state(),
                split_lines(chars@),
            ),
            done ==> reader.state() == run(initial_state(), split_lines(chars@)),
        decreases
                if done {
                    0
                } else {
                    chars@.len() - start + 1
                },
    {
        let end = find_char(&chars, start, chars.len(), '\n');
        let ghost rest = chars@.skip(start as int);
        let ghost before = reader.state();
        reader = reader.feed(data, &chars, start, end);
        proof {
            assert(rest =~= chars@.subrange(start as int, chars@.len() as int));
            assert(rest.take(end - start) =~= chars@.subrange(start as int, end as int));
            if end < chars@.len() {
                assert(rest.skip(end - start + 1) =~= chars@.skip(end + 1));
                let lines = split_lines(rest);
                assert(lines.first() == rest.take(end - start));
                assert(lines.drop_first() =~= split_lines(chars@.skip(end + 1)));
            } else {
                let lines = split_lines(rest);
                assert(lines =~= seq![rest]);
                assert(lines.drop_first() =~= Seq::<Seq<char>>::empty());
                assert(run(before, lines) == run(step(before, rest), lines.drop_first()));
            }
        }
        if end == chars.len() {
            done = true;
        } else {
            start = end + 1;
        }
    }
    Ok(reader.finish())
}

/// Adds the line that sets `key` to `value`.
fn append_setting(text: &mut String, key: &str, value: &str)
    ensures
        final(text)@ == old(text)@ + setting_text(key@, value@),
{
    text.append(key);
    text.append(" = ");
    text.append(value);
    text.append("\n");
    assert(text@ =~= old(text)@ + setting_text(key@, value@));
}

/// Adds the section of the profile `name`.
fn append_section(text: &mut String, name: &str, credentials: &Credentials)
    ensures
        final(text)@ == old(text)@ + section_text(
            ProfileView { name: name@, credentials: credentials@ },
        ),
{
    let ghost profile = ProfileView { name: name@, credentials: credentials@ };
    text.append("[");
    text.append(name);
    text.append("]\n");
    let ghost header = text@;
    assert(header =~= old(text)@ + ("["@ + name@ + "]\n"@));
    append_setting(text, "aws_access_key_id", credentials.access_key_id.as_str());
    append_setting(text, "aws_secret_access_key", credentials.secret_access_key.as_str());
    let ghost keys = text@;
    match &credentials.session_token {
        Some(token) => {
            append_setting(text, "aws_session_token", token.as_str());
        },
        None => {
            assert(keys + Seq::<char>::empty() =~= keys);
        },
    }
    text.append("\n");
    assert(text@ =~= old(text)@ + section_text(profile));
}

/// Writes the profiles as the text of a credentials file, one section each,
/// in the order in which the store holds them. The names of a store are
/// distinct.
pub fn serialize(store: &ProfileStore) -> (text: String)
    ensures
        text@ == serialize_text(store@),
        distinct_names(store@),
{
    let mut text = String::new();
    let count = store.len();
    let mut index: usize = 0;
    while index < count
        invariant
            index <= count,
            count == store@.len(),
            text@ == serialize_text(store@.take(index as int)),
        decreases count - index,
    {
        append_section(&mut text, store.name_at(index), store.credentials_at(index));
        proof {
            let so_far = store@.take(index + 1);
            assert(so_far.drop_last() =~= store@.take(index as int));
            assert(so_far.last() == store@[index as int]);
        }
        index += 1;
    }
    assert(store@.take(count as int) =~= store@);
    text
}

} // verus!
