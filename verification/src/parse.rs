//! Parsing of what users type: identifiers, argument lists, custom emoji.

use crate::commands::texts;
use crate::text::{chars_of, parse_u64, parse_u64_in, parsed_u64, push_str, string_of};
use vstd::prelude::*;
use vstd::string::StringSliceAdditionalSpecFns;

verus! {

/// What an identifier in a message refers to.
#[derive(Clone, Copy, Debug, PartialEq, Eq, Structural)]
pub enum DiscordIds {
    Message,
    Channel,
    Role,
    User,
}

impl DiscordIds {
    /// The name of the kind, as shown to users.
    pub open spec fn label(self) -> Seq<char> {
        match self {
            DiscordIds::Message => "Message"@,
            DiscordIds::Channel => "Channel"@,
            DiscordIds::Role => "Role"@,
            DiscordIds::User => "User"@,
        }
    }

    /// The name of the kind, as shown to users.
    pub fn name(&self) -> (s: &'static str)
        ensures
            s@ == self.label(),
    {
        match self {
            DiscordIds::Message => "Message",
            DiscordIds::Channel => "Channel",
            DiscordIds::Role => "Role",
            DiscordIds::User => "User",
        }
    }
}

/// The number of digits of an identifier.
pub const ID_DIGITS: usize = 18;

/// The kind that the marker in front of an identifier stands for: `<@` and `<@!` for a
/// user, `<@&` for a role, `<#` and everything else for a channel.
pub open spec fn kind_of_marker(marker: Seq<u8>) -> DiscordIds {
    if marker == seq![0x3Cu8, 0x40u8] || marker == seq![0x3Cu8, 0x40u8, 0x21u8] {
        DiscordIds::User
    } else if marker == seq![0x3Cu8, 0x40u8, 0x26u8] {
        DiscordIds::Role
    } else {
        DiscordIds::Channel
    }
}

/// The text that reports an identifier of another kind than the expected one.
pub open spec fn mismatch_text(expected: DiscordIds, got: DiscordIds) -> Seq<char> {
    "Mismatched type, expected: "@ + expected.label() + ", got: "@ + got.label()
}

/// The identifier that the bytes `b` write, and its kind. A text of exactly eighteen
/// bytes is a bare number and counts as a channel. A longer text is a mention: a
/// marker, eighteen bytes of number, and one closing byte; its kind is that of the
/// marker, and must be the expected one where one is expected.
pub open spec fn identified(b: Seq<u8>, expected: Option<DiscordIds>) -> Result<
    (u64, DiscordIds),
    Seq<char>,
> {
    if b.len() < 18 {
        Err("Unable to parse, text isn't an disocrd ID"@)
    } else if b.len() == 18 {
        match parsed_u64(b) {
            Some(n) => Ok((n, DiscordIds::Channel)),
            None => Err("Unable to parse Id, not numeric"@),
        }
    } else {
        let kind = kind_of_marker(b.subrange(0, b.len() - 19));
        match parsed_u64(b.subrange(b.len() - 19, b.len() - 1)) {
            None => Err("Unable to parse Id, badly formated"@),
            Some(n) => if expected is Some && expected->0 != kind {
                Err(mismatch_text(expected->0, kind))
            } else {
                Ok((n, kind))
            },
        }
    }
}

/// Reads the kind of the marker in `bytes[..len]`.
fn marker_kind(bytes: &[u8], len: usize) -> (k: DiscordIds)
    requires
        len <= bytes.len(),
    ensures
        k == kind_of_marker(bytes@.subrange(0, len as int)),
{
    let ghost m = bytes@.subrange(0, len as int);
    if len == 2 && bytes[0] == 0x3C && bytes[1] == 0x40 {
        assert(m =~= seq![0x3Cu8, 0x40u8]);
        DiscordIds::User
    } else if len == 3 && bytes[0] == 0x3C && bytes[1] == 0x40 && bytes[2] == 0x21 {
        assert(m =~= seq![0x3Cu8, 0x40u8, 0x21u8]);
        DiscordIds::User
    } else if len == 3 && bytes[0] == 0x3C && bytes[1] == 0x40 && bytes[2] == 0x26 {
        assert(m =~= seq![0x3Cu8, 0x40u8, 0x26u8]);
        DiscordIds::Role
    } else {
        proof {
            let user = seq![0x3Cu8, 0x40u8];
            let nick = seq![0x3Cu8, 0x40u8, 0x21u8];
            let role = seq![0x3Cu8, 0x40u8, 0x26u8];
            if m == user {
                assert(m[0] == user[0] && m[1] == user[1]);
            }
            if m == nick {
                assert(m[0] == nick[0] && m[1] == nick[1] && m[2] == nick[2]);
            }
            if m == role {
                assert(m[0] == role[0] && m[1] == role[1] && m[2] == role[2]);
            }
        }
        DiscordIds::Channel
    }
}

/// Reads an identifier or a mention, and checks its kind where one is expected.
pub fn discord_str_to_id(id: &str, expected: Option<DiscordIds>) -> (r: Result<
    (u64, DiscordIds),
    String,
>)
    ensures
        match r {
            Ok(p) => identified(id.spec_bytes(), expected) == Ok::<(u64, DiscordIds), Seq<char>>(
                p,
            ),
            Err(e) => identified(id.spec_bytes(), expected) == Err::<(u64, DiscordIds), Seq<char>>(
                e@,
            ),
        },
{
    let bytes = id.as_bytes();
    let size: usize = bytes.len();
    if size < ID_DIGITS {
        return Err("Unable to parse, text isn't an disocrd ID".to_owned());
    }
    if size == ID_DIGITS {
        assert(bytes@.subrange(0, size as int) =~= bytes@);
        return match parse_u64_in(bytes, 0, size) {
            Some(n) => Ok((n, DiscordIds::Channel)),
            None => Err("Unable to parse Id, not numeric".to_owned()),
        };
    }
    let kind = marker_kind(bytes, size - (ID_DIGITS + 1));
    match parse_u64_in(bytes, size - (ID_DIGITS + 1), size - 1) {
        None => Err("Unable to parse Id, badly formated".to_owned()),
        Some(n) => {
            match expected {
                Some(e) => {
                    if e != kind {
                        let mut msg: Vec<char> = Vec::new();
                        push_str(&mut msg, "Mismatched type, expected: ");
                        push_str(&mut msg, e.name());
                        push_str(&mut msg, ", got: ");
                        push_str(&mut msg, kind.name());
                        assert(msg@ =~= mismatch_text(e, kind));
                        return Err(string_of(&msg));
                    }
                },
                None => {},
            }
            Ok((n, kind))
        },
    }
}

/// The kind of channel in which a command was called.
#[derive(Clone, Copy, Debug, PartialEq, Eq, Structural)]
pub enum ChannelKind {
    /// A private conversation.
    Private,
    /// A channel of the guild with this identifier.
    Guild(u64),
    /// Any other kind.
    Other,
}

/// The guild that a command called in a channel of kind `kind` is about: the channel's
/// own guild; in a private conversation the guild that `gid` writes, or the main guild
/// where none is given.
pub open spec fn guild_for(kind: ChannelKind, gid: Option<Seq<u8>>, main_guild: u64) -> Result<
    u64,
    Seq<char>,
> {
    match kind {
        ChannelKind::Private => match gid {
            Some(g) => match parsed_u64(g) {
                Some(id) => Ok(id),
                None => Err("Invalid guild id"@),
            },
            None => Ok(main_guild),
        },
        ChannelKind::Guild(g) => Ok(g),
        ChannelKind::Other => Err("This doesn't work in this channel"@),
    }
}

/// Picks the guild that a command is about.
pub fn get_guild(kind: ChannelKind, gid: Option<&str>, main_guild: u64) -> (r: Result<
    u64,
    String,
>)
    ensures
        match r {
            Ok(id) => guild_for(
                kind,
                match gid {
                    Some(g) => Some(g.spec_bytes()),
                    None => None,
                },
                main_guild,
            ) == Ok::<u64, Seq<char>>(id),
            Err(e) => guild_for(
                kind,
                match gid {
                    Some(g) => Some(g.spec_bytes()),
                    None => None,
                },
                main_guild,
            ) == Err::<u64, Seq<char>>(e@),
        },
{
    match kind {
        ChannelKind::Private => match gid {
            Some(g) => match parse_u64(g) {
                Some(id) => Ok(id),
                None => Err("Invalid guild id".to_owned()),
            },
            None => Ok(main_guild),
        },
        ChannelKind::Guild(g) => Ok(g),
        ChannelKind::Other => Err("This doesn't work in this channel".to_owned()),
    }
}

/// The typographic quotation marks that count as `"`.
pub open spec fn is_curly_quote(c: char) -> bool {
    c == '\u{201C}' || c == '\u{201D}' || c == '\u{2018}' || c == '\u{2019}' || c == '\u{AB}' || c
        == '\u{BB}' || c == '\u{201E}'
}

/// The text `s` with every typographic quotation mark replaced by `"`.
pub open spec fn straightened(s: Seq<char>) -> Seq<char> {
    s.map_values(
        |c: char|
            if is_curly_quote(c) {
                '"'
            } else {
                c
            },
    )
}

/// Whether the character before position `i` of `m` escapes the one at `i`: it is a
/// backslash that is not escaped itself.
pub open spec fn escaped_at(m: Seq<char>, i: int) -> bool
    decreases i,
{
    if i <= 0 {
        false
    } else {
        !escaped_at(m, i - 1) && m[i - 1] == '\\'
    }
}

/// The first `k` characters of `m` without the quotation marks that are not escaped.
pub open spec fn unquoted_up_to(m: Seq<char>, k: int) -> Seq<char>
    decreases k,
{
    if k <= 0 {
        Seq::empty()
    } else if m[k - 1] == '"' && !escaped_at(m, k - 1) {
        unquoted_up_to(m, k - 1)
    } else {
        unquoted_up_to(m, k - 1).push(m[k - 1])
    }
}

/// The text `m` without the quotation marks that are not escaped.
pub open spec fn unquoted(m: Seq<char>) -> Seq<char> {
    unquoted_up_to(m, m.len() as int)
}

/// The pattern of one argument: a run without blanks that holds one quoted part, in
/// which blanks may stand, or else a run without blanks.
pub open spec fn argument_pattern() -> Seq<char> {
    "([^\"\\s]*\"[^\"\\n]*\"[^\"\\s]*)|([^\\s]+)"@
}

/// The pattern of a custom emoji: an optional `a`, a name, and eighteen digits.
pub open spec fn emoji_pattern() -> Seq<char> {
    "<(a)?:(.*):([0-9]{18})>"@
}

/// The successive matches of the regular expression `pattern` in `haystack`, without
/// overlap and from left to right, each as the text it covers; none for a pattern that
/// is no regular expression.
pub uninterp spec fn regex_matches(pattern: Seq<char>, haystack: Seq<char>) -> Option<
    Seq<Seq<char>>,
>;

/// The groups of the first match of the regular expression `pattern` in `haystack`:
/// the whole match at position 0, then each group of the pattern, with the text it
/// covers or nothing where it took no part; none where there is no match or the
/// pattern is no regular expression.
pub uninterp spec fn regex_captures(pattern: Seq<char>, haystack: Seq<char>) -> Option<
    Seq<Option<Seq<char>>>,
>;

/// The texts of a list of groups.
pub open spec fn group_texts(v: Seq<Option<String>>) -> Seq<Option<Seq<char>>> {
    v.map_values(
        |g: Option<String>|
            match g {
                Some(s) => Some(s@),
                None => None,
            },
    )
}

/// Compiles `pattern` with `regex::Regex::new` and collects the texts of the matches
/// that `Regex::find_iter` yields on `haystack`. The contract gives the result a name;
/// it is `None` where the pattern does not compile.
#[verifier::external_body]
fn find_all(pattern: &str, haystack: &str) -> (r: Option<Vec<String>>)
    ensures
        match r {
            Some(v) => regex_matches(pattern@, haystack@) == Some(texts(v@)),
            None => regex_matches(pattern@, haystack@) is None,
        },
{
    let re = regex::Regex::new(pattern).ok()?;
    Some(re.find_iter(haystack).map(|m| m.as_str().to_string()).collect())
}

/// Compiles `pattern` with `regex::Regex::new` and collects the groups of the match
/// that `Regex::captures` finds in `haystack`, by `Captures::get` from 0 up to
/// `Captures::len`. The contract gives the result a name; it is `None` where the
/// pattern does not compile or nothing matches.
#[verifier::external_body]
fn capture_groups(pattern: &str, haystack: &str) -> (r: Option<Vec<Option<String>>>)
    ensures
        match r {
            Some(v) => regex_captures(pattern@, haystack@) == Some(group_texts(v@)),
            None => regex_captures(pattern@, haystack@) is None,
        },
{
    let re = regex::Regex::new(pattern).ok()?;
    let caps = re.captures(haystack)?;
    Some((0..caps.len()).map(|i| caps.get(i).map(|m| m.as_str().to_string())).collect())
}

/// Replaces every typographic quotation mark of `input` by `"`.
pub fn straighten(input: &str) -> (out: String)
    ensures
        out@ == straightened(input@),
{
    let chars = chars_of(input);
    let mut out: Vec<char> = Vec::new();
    let mut i: usize = 0;
    while i < chars.len()
        invariant
            i <= chars.len(),
            out@ =~= straightened(chars@.take(i as int)),
        decreases chars.len() - i,
    {
        let c: char = chars[i];
        if c == '\u{201C}' || c == '\u{201D}' || c == '\u{2018}' || c == '\u{2019}' || c
            == '\u{AB}' || c == '\u{BB}' || c == '\u{201E}' {
            out.push('"');
        } else {
            out.push(c);
        }
        assert(chars@.take(i + 1) =~= chars@.take(i as int).push(c));
        i += 1;
    }
    assert(chars@.take(chars.len() as int) =~= chars@);
    string_of(&out)
}

/// Removes from `m` the quotation marks that are not escaped.
pub fn unquote(m: &str) -> (out: String)
    ensures
        out@ == unquoted(m@),
{
    let chars = chars_of(m);
    let mut out: Vec<char> = Vec::new();
    let mut escaped: bool = false;
    let mut i: usize = 0;
    while i < chars.len()
        invariant
            i <= chars.len(),
            escaped == escaped_at(chars@, i as int),
            out@ == unquoted_up_to(chars@, i as int),
        decreases chars.len() - i,
    {
        let c: char = chars[i];
        if !(c == '"' && !escaped) {
            out.push(c);
        }
        escaped = !escaped && c == '\\';
        i += 1;
    }
    string_of(&out)
}

/// The arguments made of the matches `found`: each without the quotation marks that
/// are not escaped.
pub open spec fn arguments_of(found: Seq<Seq<char>>) -> Seq<Seq<char>> {
    found.map_values(|m: Seq<char>| unquoted(m))
}

/// Turns the matches of the argument pattern into arguments.
pub fn unquote_all(found: &Vec<String>) -> (out: Vec<String>)
    ensures
        texts(out@) == arguments_of(texts(found@)),
{
    let mut out: Vec<String> = Vec::new();
    let mut i: usize = 0;
    while i < found.len()
        invariant
            i <= found.len(),
            texts(out@) =~= arguments_of(texts(found@).take(i as int)),
        decreases found.len() - i,
    {
        let ghost before = texts(out@);
        out.push(unquote(found[i].as_str()));
        proof {
            assert(texts(found@)[i as int] == found@[i as int]@);
            assert(texts(found@).take(i + 1) =~= texts(found@).take(i as int).push(
                found@[i as int]@,
            ));
            assert(texts(out@) =~= before.push(unquoted(found@[i as int]@)));
        }
        i += 1;
    }
    assert(texts(found@).take(found.len() as int) =~= texts(found@));
    out
}

/// Splits a message into its arguments. Blanks separate them, a quoted part keeps its
/// blanks, typographic quotation marks count as `"`, and the quotation marks that are
/// not escaped are left out of the arguments.
pub fn split_message_args(input: &str) -> (out: Vec<String>)
    ensures
        match regex_matches(argument_pattern(), straightened(input@)) {
            Some(found) => texts(out@) == arguments_of(found),
            None => out@.len() == 0,
        },
{
    let clean = straighten(input);
    match find_all("([^\"\\s]*\"[^\"\\n]*\"[^\"\\s]*)|([^\\s]+)", clean.as_str()) {
        Some(found) => unquote_all(&found),
        None => Vec::new(),
    }
}

/// The parts of a custom emoji in the groups of a match: whether it is animated, its
/// name, and its identifier. None where the groups are not those of the emoji pattern.
pub open spec fn emoji_of(groups: Option<Seq<Option<Seq<char>>>>) -> Option<
    (bool, Seq<char>, Seq<char>),
> {
    match groups {
        Some(g) => if g.len() == 4 && g[2] is Some && g[3] is Some {
            Some((g[1] is Some, g[2]->0, g[3]->0))
        } else {
            None
        },
        None => None,
    }
}

/// Reads the parts of a custom emoji from the groups of a match.
pub fn emoji_from_groups(groups: &Vec<Option<String>>) -> (r: Option<(bool, String, String)>)
    ensures
        match r {
            Some(e) => emoji_of(Some(group_texts(groups@))) == Some((e.0, e.1@, e.2@)),
            None => emoji_of(Some(group_texts(groups@))) is None,
        },
{
    if groups.len() != 4 {
        return None;
    }
    assert(group_texts(groups@)[1] is Some == groups@[1] is Some);
    match (&groups[2], &groups[3]) {
        (Some(name), Some(id)) => {
            assert(group_texts(groups@)[2] == Some(name@));
            assert(group_texts(groups@)[3] == Some(id@));
            Some((groups[1].is_some(), name.clone(), id.clone()))
        },
        _ => {
            assert(group_texts(groups@)[2] is None || group_texts(groups@)[3] is None);
            None
        },
    }
}

/// Reads a custom emoji such as `<:name:887736509292228668>`: whether it is animated,
/// its name, and its identifier.
pub fn emoji_str_convert(emoji_str: &str) -> (r: Option<(bool, String, String)>)
    ensures
        match r {
            Some(e) => emoji_of(regex_captures(emoji_pattern(), emoji_str@)) == Some(
                (e.0, e.1@, e.2@),
            ),
            None => emoji_of(regex_captures(emoji_pattern(), emoji_str@)) is None,
        },
{
    match capture_groups("<(a)?:(.*):([0-9]{18})>", emoji_str) {
        Some(groups) => emoji_from_groups(&groups),
        None => None,
    }
}

} // verus!
