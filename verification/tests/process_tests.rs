use rbot_discord::clock::Timestamp;
use rbot_discord::commands::Action;
use rbot_discord::database::{database_update, edited_message, Database, Message, NewMessageEdit};
use rbot_discord::features::{Features, ThreadControl};
use rbot_discord::notify::{check_events, remove_elem, Event, Notice};
use rbot_discord::process::{
    annoy_channel, annoy_with, annoying_list, archive_activity, attacked, attacked_with, cat_list,
    draw, excuse, filter_outannoying_messages, key_list, personal_attack, personal_attack_with,
    process_contains, process_tag_msg, AnnoyedChannels, Canned, CannedReaction,
};

fn canned(key: &str, text: &str) -> Canned {
    Canned {
        key: key.to_string(),
        text: text.to_string(),
    }
}

fn strings(items: &[&str]) -> Vec<String> {
    items.iter().map(|s| s.to_string()).collect()
}

type Fields = (String, u64, u64, String, u64, bool);

fn fields(events: &[Event]) -> Vec<Fields> {
    events
        .iter()
        .map(|e| {
            (
                e.name.clone(),
                e.duration,
                e.started,
                e.message.clone(),
                e.channel,
                e.repeat,
            )
        })
        .collect()
}

fn event(name: &str, duration: u64, started: u64, repeat: bool) -> Event {
    Event {
        name: name.to_string(),
        duration,
        started,
        message: format!("{} !", name),
        channel: 9,
        repeat,
    }
}

const CHANNELS: AnnoyedChannels = AnnoyedChannels {
    herdingchatte: 1,
    cybergod: 2,
    testbot: 3,
};

#[test]
fn a_tag_is_answered_by_its_first_entry() {
    let tags = vec![canned("!a", "one"), canned("!b", "two"), canned("!a", "three")];
    assert_eq!(process_tag_msg(&tags, &strings(&["!a", "x"])), Some("one".to_string()));
    assert_eq!(process_tag_msg(&tags, &strings(&["!b"])), Some("two".to_string()));
    assert_eq!(process_tag_msg(&tags, &strings(&["!c"])), None);
    assert_eq!(process_tag_msg(&tags, &strings(&["x", "!a"])), None);
    assert_eq!(process_tag_msg(&tags, &strings(&[])), None);
}

#[test]
fn canned_keys_in_a_text_are_answered_in_order() {
    let says = vec![canned("rust", "crab"), canned("java", "bean"), canned("st", "saint")];
    let reacts = vec![
        CannedReaction {
            key: "cat".to_string(),
            reaction: '\u{1F408}',
        },
        CannedReaction {
            key: "us".to_string(),
            reaction: '\u{1F511}',
        },
    ];
    assert_eq!(
        process_contains(&says, &reacts, "I trust you"),
        vec![
            Action::Say("crab".to_string()),
            Action::Say("saint".to_string()),
            Action::React('\u{1F511}'),
        ]
    );
    assert_eq!(process_contains(&says, &reacts, "nothing"), vec![]);
    assert_eq!(
        process_contains(&says, &reacts, "cat"),
        vec![Action::React('\u{1F408}')]
    );
}

#[test]
fn two_draws_pick_a_reaction_one_time_in_ten() {
    let cats = cat_list();
    assert_eq!(cats.len(), 12);
    assert_eq!(key_list().len(), 8);
    assert_eq!(annoying_list().len(), 11);
    assert_eq!(draw(&cats, 0, 0), Some('\u{1F63A}'));
    assert_eq!(draw(&cats, 10, 13), Some('\u{1F638}'));
    assert_eq!(draw(&cats, 20, 11), Some('\u{1F42D}'));
    assert_eq!(draw(&cats, 1, 0), None);
    assert_eq!(draw(&cats, 19, 5), None);
    assert_eq!(draw(&vec![], 0, 0), None);
}

#[test]
fn only_annoyed_channels_get_reactions() {
    assert_eq!(annoy_with(&CHANNELS, 1, &[0, 0, 0, 0, 0, 0]), vec!['\u{1F63A}']);
    assert_eq!(annoy_with(&CHANNELS, 2, &[0, 0, 0, 1, 0, 0]), vec!['\u{1F5DD}']);
    assert_eq!(annoy_with(&CHANNELS, 3, &[0, 0, 0, 1, 30, 7]), vec!['\u{1F453}']);
    assert_eq!(annoy_with(&CHANNELS, 3, &[0, 0, 0, 1, 31, 7]), vec![]);
    assert_eq!(annoy_with(&CHANNELS, 4, &[0, 0, 0, 0, 0, 0]), vec![]);
    let same = AnnoyedChannels {
        herdingchatte: 5,
        cybergod: 5,
        testbot: 5,
    };
    assert_eq!(
        annoy_with(&same, 5, &[0, 1, 0, 2, 0, 3]),
        vec!['\u{1F638}', '\u{1F50F}', '\u{1F510}']
    );
}

#[test]
fn random_reactions_come_from_the_tables() {
    let cats = cat_list();
    let keys = key_list();
    for _ in 0..200 {
        assert_eq!(annoy_channel(&CHANNELS, 4), vec![]);
        let one = annoy_channel(&CHANNELS, 1);
        assert!(one.len() <= 1);
        assert!(one.iter().all(|c| cats.contains(c)));
        let two = annoy_channel(&CHANNELS, 2);
        assert!(two.len() <= 1);
        assert!(two.iter().all(|c| keys.contains(c)));
    }
}

#[test]
fn only_the_filtered_author_is_filtered() {
    let pm = 365228504817729539;
    assert!(filter_outannoying_messages(pm, "\u{1F525}", pm));
    assert!(filter_outannoying_messages(pm, " \u{1F525}\u{1F525} \n\u{1F525}\t", pm));
    assert!(filter_outannoying_messages(pm, "", pm));
    assert!(filter_outannoying_messages(pm, "  ", pm));
    assert!(!filter_outannoying_messages(pm, "\u{1F525} fire", pm));
    assert!(!filter_outannoying_messages(pm, "x", pm));
    assert!(!filter_outannoying_messages(1, "\u{1F525}", pm));
}

#[test]
fn the_filter_agrees_with_replace_and_trim() {
    for text in ["", "\u{1F525}", " \u{1F525} ", "a\u{1F525}", "\u{1F525}\u{a0}\u{3000}", "\u{1F4A9}"] {
        assert_eq!(
            filter_outannoying_messages(1, text, 1),
            text.replace("\u{1F525}", "").trim().is_empty(),
            "{:?}",
            text
        );
    }
}

#[test]
fn the_attacked_user_gets_two_reactions() {
    assert_eq!(
        personal_attack_with("bob", "bob", 0, 12),
        vec!['\u{1F427}', '\u{1F4A9}']
    );
    assert_eq!(personal_attack_with("bob", "bob", 10, 21), vec!['\u{26A0}', '\u{26A0}']);
    assert_eq!(personal_attack_with("Bob", "bob", 0, 1), vec![]);
    let table = annoying_list();
    for _ in 0..50 {
        let marks = personal_attack("bob", "bob");
        assert_eq!(marks.len(), 2);
        assert!(marks.iter().all(|c| table.contains(c)));
        assert_eq!(personal_attack("alice", "bob"), vec![]);
    }
}

#[test]
fn the_attacked_user_gets_an_excuse() {
    assert_eq!(attacked_with("bob", "bob", 0), Some("Ah oui mais y'a JPO"));
    assert_eq!(attacked_with("bob", "bob", 9), Some("Ah mais vous faites quoi ?"));
    assert_eq!(
        attacked_with("bob", "bob", 7),
        Some("Vous pourriez faire \u{e7}a vous meme s'il vous pla\u{ee}t ? Je suis occup\u{e9}")
    );
    assert_eq!(attacked_with("alice", "bob", 0), None);
    assert_eq!(excuse(5), "Je bosse sur un projet super innovant en ce moment, j'ai pas le temps");
    assert_eq!(excuse(6), "Ah oui mais y'a JPO");
    for _ in 0..50 {
        let said = attacked("bob", "bob").unwrap();
        assert!((0..6).any(|i| excuse(i) == said));
        assert_eq!(attacked("alice", "bob"), None);
    }
}

#[test]
fn an_archived_channel_moves_to_the_projects() {
    assert_eq!(archive_activity(Some(5), 5, 6), Some(6));
    assert_eq!(archive_activity(Some(4), 5, 6), None);
    assert_eq!(archive_activity(None, 5, 6), None);
}

#[test]
fn a_new_message_is_recorded_with_its_author() {
    let mut db = Database::new();
    let m = Message {
        id: 1,
        author: 42,
        content: "hi".to_string(),
        channel: 7,
        date: Some(Timestamp { secs: 5, nanos: 0 }),
    };
    database_update(&mut db, m.clone(), false);
    assert_eq!(db.messages, vec![m.clone()]);
    assert_eq!(db.users.len(), 1);
    assert_eq!(db.users.users[0].discordid, 42);
    assert_eq!(db.users.users[0].role, "Guest");
    database_update(&mut db, m.clone(), false);
    assert_eq!(db.messages.len(), 2);
    assert_eq!(db.users.len(), 1);
    assert!(db.messages_edits.is_empty());
}

#[test]
fn an_edit_is_recorded_as_an_edit() {
    let mut db = Database::new();
    let m = Message {
        id: 1,
        author: 42,
        content: "hi again".to_string(),
        channel: 7,
        date: None,
    };
    database_update(&mut db, m, true);
    assert_eq!(
        db.messages_edits,
        vec![NewMessageEdit {
            id: None,
            parrent_message_id: 1,
            author: 42,
            channel: 7,
            content: "hi again".to_string(),
            date: None,
        }]
    );
    assert!(db.messages.is_empty());
    assert_eq!(db.users.len(), 0);
}

#[test]
fn features_run_once() {
    let mut f = Features::new();
    assert!(!f.running);
    assert!(f.thread_control.check());
    assert_eq!(
        f,
        Features {
            thread_control: ThreadControl { stopped: false },
            running: false
        }
    );
    assert!(f.run());
    assert!(f.running);
    assert!(!f.run());
    f.thread_control.stop();
    assert!(!f.thread_control.check());
    assert!(ThreadControl::new().check());
}

#[test]
fn an_event_is_added_from_its_parameters() {
    let mut stored = Vec::new();
    let r = Event::add(
        &mut stored,
        &strings(&["!notify", "standup", "06-01:10:00", "Stand up !", "<#123456>"]),
        600,
        1000,
    );
    assert_eq!(r, Some("Ok".to_string()));
    assert_eq!(
        fields(&stored),
        vec![(
            "standup".to_string(),
            600,
            1000,
            "Stand up !".to_string(),
            123456,
            false
        )]
    );
    let r = Event::add(
        &mut stored,
        &strings(&["!notify", "daily", "06-01:10:00", "Again", "<#7>", "repeat"]),
        60,
        1000,
    );
    assert_eq!(r, Some("Ok".to_string()));
    assert!(stored[1].repeat);
    assert_eq!(stored[1].channel, 7);
    let r = Event::add(
        &mut stored,
        &strings(&["!notify", "x", "06-01:10:00", "X", "<#7>", "once"]),
        60,
        1000,
    );
    assert_eq!(r, Some("Ok".to_string()));
    assert!(!stored[2].repeat);
}

#[test]
fn parameters_that_describe_no_event_add_nothing() {
    let mut stored = Vec::new();
    assert_eq!(Event::add(&mut stored, &strings(&["!notify", "a", "b", "c"]), 1, 1), None);
    assert_eq!(
        Event::add(&mut stored, &strings(&["!notify", "a", "b", "c", "<#>"]), 1, 1),
        None
    );
    assert_eq!(
        Event::add(&mut stored, &strings(&["!notify", "a", "b", "c", "#7"]), 1, 1),
        None
    );
    assert_eq!(
        Event::add(&mut stored, &strings(&["!notify", "a", "b", "c", "<#7x>"]), 1, 1),
        None
    );
    assert!(stored.is_empty());
}

#[test]
fn an_event_is_removed_by_its_name() {
    let mut events = vec![event("a", 1, 1, false), event("b", 1, 1, false), event("a", 2, 2, true)];
    assert!(remove_elem(&mut events, &event("a", 9, 9, false)));
    assert_eq!(
        fields(&events),
        fields(&[event("b", 1, 1, false), event("a", 2, 2, true)])
    );
    assert!(!remove_elem(&mut events, &event("c", 1, 1, false)));
    assert_eq!(events.len(), 2);
    assert!(event("a", 1, 1, false) == event("a", 2, 3, true));
    assert!(event("a", 1, 1, false) != event("b", 1, 1, false));
}

#[test]
fn a_check_announces_what_has_run_out() {
    let mut events = vec![
        event("once", 10, 100, false),
        event("again", 10, 100, true),
        event("later", 50, 100, false),
        event("edge", 11, 100, false),
        event("future", 0, 500, false),
    ];
    let out = check_events(&mut events, 111);
    assert_eq!(
        out,
        vec![
            Notice {
                channel: 9,
                message: "once !".to_string()
            },
            Notice {
                channel: 9,
                message: "again !".to_string()
            },
        ]
    );
    assert_eq!(
        fields(&events),
        fields(&[
            event("again", 10, 111, true),
            event("later", 50, 100, false),
            event("edge", 11, 100, false),
            event("future", 0, 500, false),
        ])
    );
    assert_eq!(check_events(&mut events, 111), vec![]);
    let out = check_events(&mut events, 122);
    assert_eq!(out.len(), 2);
    assert_eq!(out[0].message, "again !");
    assert_eq!(out[1].message, "edge !");
    assert_eq!(events.len(), 3);
}

#[test]
fn an_edit_without_author_content_or_instant_gets_defaults() {
    let now = Timestamp { secs: 77, nanos: 3 };
    assert_eq!(
        edited_message(1, None, None, 7, None, now),
        Message {
            id: 1,
            author: 0,
            content: String::new(),
            channel: 7,
            date: Some(now),
        }
    );
    let then = Timestamp { secs: 5, nanos: 0 };
    assert_eq!(
        edited_message(1, Some(42), Some("new".to_string()), 7, Some(then), now),
        Message {
            id: 1,
            author: 42,
            content: "new".to_string(),
            channel: 7,
            date: Some(then),
        }
    );
}
