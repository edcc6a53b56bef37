//! What the agent does with a message besides commands: canned replies, reactions,
//! filtering, and un-archiving of channels.

use crate::commands::{
    command_of, decision, notice, texts, users_after, Action, ActionView, Dispatched, Invocation,
    Registry,
};
use crate::text::{chars_of, contains, is_substring, is_whitespace, same_text, whitespace};
use crate::users::UserTable;
use vstd::prelude::*;

verus! {

/// Handles a tokenised message as a command: the dispatcher's decision on it, and what
/// to send for that decision. The message is a command exactly when the result is
/// handled.
pub fn process_command(
    registry: &Registry,
    users: &mut UserTable,
    message_split: &Vec<String>,
    inv: &Invocation,
) -> (r: Dispatched)
    ensures
        r.decision == decision(registry@, old(users)@, texts(message_split@), *inv),
        r.action@ == notice(registry@, r.decision),
        final(users)@ == users_after(registry@, old(users)@, texts(message_split@), *inv),
        command_of(r.decision) matches Some(i) ==> i < registry@.len(),
{
    registry.dispatch(users, message_split, inv)
}

/// A canned reply: said when a message consists of `key`, or holds it.
#[derive(Clone, Debug, PartialEq, Eq)]
pub struct Canned {
    pub key: String,
    pub text: String,
}

/// A canned reaction: added to a message that holds `key`.
#[derive(Clone, Debug, PartialEq, Eq)]
pub struct CannedReaction {
    pub key: String,
    pub reaction: char,
}

/// The position of the first canned reply of `tags` whose key is `token`.
pub open spec fn tag_for(tags: Seq<Canned>, token: Seq<char>) -> Option<int>
    decreases tags.len(),
{
    if tags.len() == 0 {
        None
    } else {
        match tag_for(tags.drop_last(), token) {
            Some(i) => Some(i),
            None => if tags.last().key@ == token {
                Some(tags.len() - 1)
            } else {
                None
            },
        }
    }
}

/// `tag_for` gives the first canned reply with the key, and none exactly when no
/// reply has it.
pub proof fn lemma_tag_for(tags: Seq<Canned>, token: Seq<char>)
    ensures
        match tag_for(tags, token) {
            Some(i) => 0 <= i < tags.len() && tags[i].key@ == token && forall|j: int|
                0 <= j < i ==> (#[trigger] tags[j]).key@ != token,
            None => forall|j: int| 0 <= j < tags.len() ==> (#[trigger] tags[j]).key@ != token,
        },
    decreases tags.len(),
{
    if tags.len() > 0 {
        lemma_tag_for(tags.drop_last(), token);
        assert(forall|j: int| 0 <= j < tags.len() - 1 ==> tags.drop_last()[j] == tags[j]);
    }
}

/// Finds the canned reply to a tokenised message: that of the first entry whose key is
/// the first token. A message without tokens has none.
pub fn process_tag_msg(tags: &Vec<Canned>, message_split: &Vec<String>) -> (r: Option<String>)
    ensures
        match r {
            Some(text) => message_split@.len() > 0 && tag_for(tags@, message_split@[0]@)
                is Some && text@ == tags@[tag_for(tags@, message_split@[0]@)->0].text@,
            None => message_split@.len() == 0 || tag_for(tags@, message_split@[0]@) is None,
        },
{
    if message_split.len() == 0 {
        return None;
    }
    let mut i: usize = 0;
    while i < tags.len()
        invariant
            i <= tags.len(),
            message_split@.len() > 0,
            forall|j: int| 0 <= j < i ==> (#[trigger] tags@[j]).key@ != message_split@[0]@,
        decreases tags.len() - i,
    {
        if tags[i].key == message_split[0] {
            proof {
                lemma_tag_for(tags@, message_split@[0]@);
            }
            return Some(tags[i].text.clone());
        }
        i += 1;
    }
    proof {
        lemma_tag_for(tags@, message_split@[0]@);
    }
    None
}

/// The replies to the text `content`: one for each entry of `says` whose key stands in
/// the text, in the order of the entries.
pub open spec fn said(says: Seq<Canned>, content: Seq<char>) -> Seq<ActionView>
    decreases says.len(),
{
    if says.len() == 0 {
        Seq::empty()
    } else if is_substring(says.last().key@, content) {
        said(says.drop_last(), content).push(ActionView::Say(says.last().text@))
    } else {
        said(says.drop_last(), content)
    }
}

/// The reactions to the text `content`: one for each entry of `reacts` whose key stands
/// in the text, in the order of the entries.
pub open spec fn reacted(reacts: Seq<CannedReaction>, content: Seq<char>) -> Seq<ActionView>
    decreases reacts.len(),
{
    if reacts.len() == 0 {
        Seq::empty()
    } else if is_substring(reacts.last().key@, content) {
        reacted(reacts.drop_last(), content).push(ActionView::React(reacts.last().reaction))
    } else {
        reacted(reacts.drop_last(), content)
    }
}

/// What a list of actions holds.
pub open spec fn action_views(v: Seq<Action>) -> Seq<ActionView> {
    v.map_values(|a: Action| a@)
}

/// The replies and reactions to a message that holds canned keys: first the replies,
/// then the reactions, each list in the order of its entries.
pub fn process_contains(says: &Vec<Canned>, reacts: &Vec<CannedReaction>, content: &str) -> (out:
    Vec<Action>)
    ensures
        action_views(out@) == said(says@, content@) + reacted(reacts@, content@),
{
    let hay = chars_of(content);
    let mut out: Vec<Action> = Vec::new();
    let mut i: usize = 0;
    assert(says@.take(0) =~= Seq::<Canned>::empty());
    while i < says.len()
        invariant
            i <= says.len(),
            hay@ == content@,
            action_views(out@) =~= said(says@.take(i as int), content@),
        decreases says.len() - i,
    {
        let key = chars_of(says[i].key.as_str());
        proof {
            assert(says@.take(i + 1).drop_last() =~= says@.take(i as int));
            assert(says@.take(i + 1).last() == says@[i as int]);
        }
        if contains(&hay, &key) {
            out.push(Action::Say(says[i].text.clone()));
        }
        i += 1;
    }
    assert(says@.take(says.len() as int) =~= says@);
    let mut k: usize = 0;
    assert(reacts@.take(0) =~= Seq::<CannedReaction>::empty());
    while k < reacts.len()
        invariant
            k <= reacts.len(),
            hay@ == content@,
            action_views(out@) =~= said(says@, content@) + reacted(
                reacts@.take(k as int),
                content@,
            ),
        decreases reacts.len() - k,
    {
        let key = chars_of(reacts[k].key.as_str());
        proof {
            assert(reacts@.take(k + 1).drop_last() =~= reacts@.take(k as int));
            assert(reacts@.take(k + 1).last() == reacts@[k as int]);
        }
        let ghost before = action_views(out@);
        if contains(&hay, &key) {
            out.push(Action::React(reacts[k].reaction));
            assert(action_views(out@) =~= before.push(ActionView::React(reacts@[k as int].reaction)));
        }
        k += 1;
    }
    assert(reacts@.take(reacts.len() as int) =~= reacts@);
    out
}

/// The reactions for the first annoyed channel.
pub open spec fn cats() -> Seq<char> {
    seq![
        '\u{1F63A}',
        '\u{1F638}',
        '\u{1F639}',
        '\u{1F63B}',
        '\u{1F63C}',
        '\u{1F63D}',
        '\u{1F640}',
        '\u{1F63F}',
        '\u{1F63E}',
        '\u{1F408}',
        '\u{1F401}',
        '\u{1F42D}',
    ]
}

/// The reactions for the other annoyed channels.
pub open spec fn keys() -> Seq<char> {
    seq![
        '\u{1F511}',
        '\u{1F5DD}',
        '\u{1F50F}',
        '\u{1F510}',
        '\u{1F512}',
        '\u{1F513}',
        '\u{1F5B1}',
        '\u{1F453}',
    ]
}

/// The reactions for an attacked user.
pub open spec fn annoying() -> Seq<char> {
    seq![
        '\u{1F427}',
        '\u{1F4A9}',
        '\u{1F34C}',
        '\u{1F4A3}',
        '\u{1F47E}',
        '\u{1F414}',
        '\u{1F4DB}',
        '\u{1F525}',
        '\u{203C}',
        '\u{26A1}',
        '\u{26A0}',
    ]
}

/// The reactions for the first annoyed channel.
pub fn cat_list() -> (v: Vec<char>)
    ensures
        v@ == cats(),
{
    let v = vec![
        '\u{1F63A}',
        '\u{1F638}',
        '\u{1F639}',
        '\u{1F63B}',
        '\u{1F63C}',
        '\u{1F63D}',
        '\u{1F640}',
        '\u{1F63F}',
        '\u{1F63E}',
        '\u{1F408}',
        '\u{1F401}',
        '\u{1F42D}',
    ];
    assert(v@ =~= cats());
    v
}

/// The reactions for the other annoyed channels.
pub fn key_list() -> (v: Vec<char>)
    ensures
        v@ == keys(),
{
    let v = vec![
        '\u{1F511}',
        '\u{1F5DD}',
        '\u{1F50F}',
        '\u{1F510}',
        '\u{1F512}',
        '\u{1F513}',
        '\u{1F5B1}',
        '\u{1F453}',
    ];
    assert(v@ =~= keys());
    v
}

/// The reactions for an attacked user.
pub fn annoying_list() -> (v: Vec<char>)
    ensures
        v@ == annoying(),
{
    let v = vec![
        '\u{1F427}',
        '\u{1F4A9}',
        '\u{1F34C}',
        '\u{1F4A3}',
        '\u{1F47E}',
        '\u{1F414}',
        '\u{1F4DB}',
        '\u{1F525}',
        '\u{203C}',
        '\u{26A1}',
        '\u{26A0}',
    ];
    assert(v@ =~= annoying());
    v
}

/// Calls `rand::random::<usize>()`, which draws a number from the thread's generator.
/// Nothing is promised of the number.
#[verifier::external_body]
fn random_number() -> usize {
    rand::random::<usize>()
}

/// The reaction that two draws pick from `table`: one time in ten, when the first draw
/// is a multiple of ten, the entry at the second draw, counted round the table.
pub open spec fn drawn(table: Seq<char>, active: usize, icon: usize) -> Option<char> {
    if table.len() > 0 && active % 10 == 0 {
        Some(table[icon as int % table.len() as int])
    } else {
        None
    }
}

/// Picks the reaction for two draws.
pub fn draw(table: &Vec<char>, active: usize, icon: usize) -> (r: Option<char>)
    ensures
        r == drawn(table@, active, icon),
{
    if table.len() > 0 && active % 10 == 0 {
        Some(table[icon % table.len()])
    } else {
        None
    }
}

/// The channels that are annoyed.
#[derive(Clone, Copy, Debug, PartialEq, Eq, Structural)]
pub struct AnnoyedChannels {
    pub herdingchatte: u64,
    pub cybergod: u64,
    pub testbot: u64,
}

/// The reactions to a message in `channel` for the draws `rolls`, two for each annoyed
/// channel: cats where the first channel is meant, keys for the other two.
pub open spec fn annoyances(channels: AnnoyedChannels, channel: u64, rolls: Seq<usize>) -> Seq<
    char,
> {
    let first = if channel == channels.herdingchatte {
        drawn(cats(), rolls[0], rolls[1])
    } else {
        None
    };
    let second = if channel == channels.cybergod {
        drawn(keys(), rolls[2], rolls[3])
    } else {
        None
    };
    let third = if channel == channels.testbot {
        drawn(keys(), rolls[4], rolls[5])
    } else {
        None
    };
    listed(first) + listed(second) + listed(third)
}

/// The list of at most one reaction.
pub open spec fn listed(r: Option<char>) -> Seq<char> {
    match r {
        Some(c) => seq![c],
        None => Seq::empty(),
    }
}

/// Picks the reactions to a message in `channel` for six given draws.
pub fn annoy_with(channels: &AnnoyedChannels, channel: u64, rolls: &[usize; 6]) -> (out: Vec<char>)
    ensures
        out@ == annoyances(*channels, channel, rolls@),
{
    let mut out: Vec<char> = Vec::new();
    if channel == channels.herdingchatte {
        match draw(&cat_list(), rolls[0], rolls[1]) {
            Some(c) => out.push(c),
            None => {},
        }
    }
    let ghost a = out@;
    if channel == channels.cybergod {
        match draw(&key_list(), rolls[2], rolls[3]) {
            Some(c) => out.push(c),
            None => {},
        }
    }
    let ghost b = out@;
    if channel == channels.testbot {
        match draw(&key_list(), rolls[4], rolls[5]) {
            Some(c) => out.push(c),
            None => {},
        }
    }
    proof {
        let first = if channel == channels.herdingchatte {
            drawn(cats(), rolls@[0], rolls@[1])
        } else {
            None
        };
        let second = if channel == channels.cybergod {
            drawn(keys(), rolls@[2], rolls@[3])
        } else {
            None
        };
        let third = if channel == channels.testbot {
            drawn(keys(), rolls@[4], rolls@[5])
        } else {
            None
        };
        assert(a =~= listed(first));
        assert(b =~= a + listed(second));
        assert(out@ =~= b + listed(third));
    }
    out
}

/// Annoys the annoyed channels: one time in ten a message there gets a reaction, a cat
/// or a key, picked at random. Every reaction comes from the two tables, and a message
/// in another channel gets none.
pub fn annoy_channel(channels: &AnnoyedChannels, channel: u64) -> (out: Vec<char>)
    ensures
        exists|rolls: Seq<usize>| rolls.len() == 6 && out@ == annoyances(*channels, channel, rolls),
{
    let rolls: [usize; 6] = [
        random_number(),
        random_number(),
        random_number(),
        random_number(),
        random_number(),
        random_number(),
    ];
    assert(rolls@.len() == 6);
    annoy_with(channels, channel, &rolls)
}

/// Whether the text is nothing but the filtered sign and blanks.
pub open spec fn only_filtered(content: Seq<char>) -> bool {
    forall|i: int|
        0 <= i < content.len() ==> #[trigger] content[i] == '\u{1F525}' || is_whitespace(
            content[i],
        )
}

/// Whether a message is to be deleted: it is written by the filtered author, `pm`, and
/// holds nothing but the filtered sign and blanks.
pub fn filter_outannoying_messages(author: u64, content: &str, pm: u64) -> (delete: bool)
    ensures
        delete == (author == pm && only_filtered(content@)),
{
    if author != pm {
        return false;
    }
    let chars = chars_of(content);
    let mut i: usize = 0;
    while i < chars.len()
        invariant
            i <= chars.len(),
            chars@ == content@,
            forall|j: int|
                0 <= j < i ==> #[trigger] chars@[j] == '\u{1F525}' || is_whitespace(chars@[j]),
        decreases chars.len() - i,
    {
        if chars[i] != '\u{1F525}' && !whitespace(chars[i]) {
            assert(!(content@[i as int] == '\u{1F525}' || is_whitespace(content@[i as int])));
            return false;
        }
        i += 1;
    }
    true
}

/// The two reactions to a message of the attacked user for two draws; none for a
/// message of anybody else.
pub open spec fn attack_marks(name: Seq<char>, target: Seq<char>, first: usize, second: usize)
    -> Seq<char> {
    if name == target {
        seq![annoying()[first as int % 11], annoying()[second as int % 11]]
    } else {
        Seq::empty()
    }
}

/// Picks the reactions to a message of `name` for two given draws.
pub fn personal_attack_with(name: &str, target: &str, first: usize, second: usize) -> (out: Vec<
    char,
>)
    ensures
        out@ == attack_marks(name@, target@, first, second),
{
    let mut out: Vec<char> = Vec::new();
    if same_text(name, target) {
        let table = annoying_list();
        out.push(table[first % 11]);
        out.push(table[second % 11]);
        assert(out@ =~= attack_marks(name@, target@, first, second));
    }
    out
}

/// Reacts to a message of the attacked user, `target`: two reactions picked at random.
/// A message of anybody else gets none.
pub fn personal_attack(name: &str, target: &str) -> (out: Vec<char>)
    ensures
        exists|first: usize, second: usize| out@ == attack_marks(name@, target@, first, second),
{
    let first = random_number();
    let second = random_number();
    personal_attack_with(name, target, first, second)
}

/// The excuses said to the attacked user.
pub open spec fn excuses() -> Seq<Seq<char>> {
    seq![
        "Ah oui mais y'a JPO"@,
        "Vous pourriez faire \u{e7}a vous meme s'il vous pla\u{ee}t ? Je suis occup\u{e9}"@,
        "Avant, Faut laver les vitres les gars"@,
        "Ah mais vous faites quoi ?"@,
        "Non mais tu as vu le jeu qui est sorti ?"@,
        "Je bosse sur un projet super innovant en ce moment, j'ai pas le temps"@,
    ]
}

/// The excuse at position `i`, counted round the table.
pub fn excuse(i: usize) -> (s: &'static str)
    ensures
        s@ == excuses()[i as int % 6],
{
    let i: usize = i % 6;
    if i == 0 {
        "Ah oui mais y'a JPO"
    } else if i == 1 {
        "Vous pourriez faire \u{e7}a vous meme s'il vous pla\u{ee}t ? Je suis occup\u{e9}"
    } else if i == 2 {
        "Avant, Faut laver les vitres les gars"
    } else if i == 3 {
        "Ah mais vous faites quoi ?"
    } else if i == 4 {
        "Non mais tu as vu le jeu qui est sorti ?"
    } else {
        "Je bosse sur un projet super innovant en ce moment, j'ai pas le temps"
    }
}

/// The excuse said to `name` for the draw `roll`: none unless `name` is the attacked
/// user.
pub open spec fn excuse_for(name: Seq<char>, target: Seq<char>, roll: usize) -> Option<Seq<char>> {
    if name == target {
        Some(excuses()[roll as int % 6])
    } else {
        None
    }
}

/// Picks the excuse said to `name` for a given draw.
pub fn attacked_with(name: &str, target: &str, roll: usize) -> (r: Option<&'static str>)
    ensures
        match r {
            Some(s) => excuse_for(name@, target@, roll) == Some(s@),
            None => excuse_for(name@, target@, roll) is None,
        },
{
    if same_text(name, target) {
        Some(excuse(roll))
    } else {
        None
    }
}

/// Answers a message of the attacked user, `target`, with an excuse picked at random;
/// nobody else gets one.
pub fn attacked(name: &str, target: &str) -> (r: Option<&'static str>)
    ensures
        r is Some <==> name@ == target@,
        r matches Some(s) ==> exists|roll: usize| excuse_for(name@, target@, roll) == Some(s@),
{
    let roll = random_number();
    attacked_with(name, target, roll)
}

/// Where a channel moves when a message arrives in it: out of the archive, into the
/// category of the projects, if it lies in the archive; nowhere otherwise.
pub fn archive_activity(category: Option<u64>, archive: u64, projects: u64) -> (target: Option<
    u64,
>)
    ensures
        target == if category == Some(archive) {
            Some(projects)
        } else {
            None::<u64>
        },
{
    match category {
        Some(c) => if c == archive {
            Some(projects)
        } else {
            None
        },
        None => None,
    }
}

} // verus!
