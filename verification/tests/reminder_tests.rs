use rbot_discord::clock::{move_to_clock, extract_date, Timestamp};
use rbot_discord::commands::Invocation;
use rbot_discord::duration::{parse_delay, Clock, Delay, Unit};
use rbot_discord::reminders::{deliver, plan, remind_me, Delivery, NewReminder, Reminder, ReminderStore};

fn at(secs: i64) -> Timestamp {
    Timestamp { secs, nanos: 0 }
}

fn plain(amount: u16, unit: Unit) -> Option<Delay> {
    Some(Delay {
        amount,
        unit,
        clock: None,
    })
}

fn fresh(author: u64, channel: u64, content: &str, trigger_date: Timestamp) -> NewReminder {
    NewReminder {
        author,
        channel,
        content: content.to_string(),
        trigger_date,
    }
}

fn words(items: &[&str]) -> Vec<String> {
    items.iter().map(|s| s.to_string()).collect()
}

// 2021-06-01T12:00:00Z, 14:00 in Paris.
const SUMMER_NOON: i64 = 1_622_548_800;
// 2021-01-10T12:00:00Z, 13:00 in Paris.
const WINTER_NOON: i64 = 1_610_280_000;

#[test]
fn delays_in_minutes_hours_and_days() {
    assert_eq!(parse_delay("30m"), plain(30, Unit::Minutes));
    assert_eq!(parse_delay("1minute"), plain(1, Unit::Minutes));
    assert_eq!(parse_delay("45minutes"), plain(45, Unit::Minutes));
    assert_eq!(parse_delay("2h"), plain(2, Unit::Hours));
    assert_eq!(parse_delay("1hour"), plain(1, Unit::Hours));
    assert_eq!(parse_delay("12hours"), plain(12, Unit::Hours));
    assert_eq!(parse_delay("3d"), plain(3, Unit::Days));
    assert_eq!(parse_delay("1day"), plain(1, Unit::Days));
    assert_eq!(parse_delay("9999days"), plain(9999, Unit::Days));
    assert_eq!(parse_delay("0m"), plain(0, Unit::Minutes));
    assert_eq!(parse_delay("0007h"), plain(7, Unit::Hours));
}

#[test]
fn delays_with_a_time_of_day() {
    let with = |hour: u8, minute: u8| {
        Some(Delay {
            amount: 3,
            unit: Unit::Days,
            clock: Some(Clock { hour, minute }),
        })
    };
    assert_eq!(parse_delay("3d10:15"), with(10, 15));
    assert_eq!(parse_delay("3d10h15"), with(10, 15));
    assert_eq!(parse_delay("3d10:"), with(10, 0));
    assert_eq!(parse_delay("3d10h"), with(10, 0));
    assert_eq!(parse_delay("3day00:00"), with(0, 0));
    assert_eq!(parse_delay("3days23:59"), with(23, 59));
}

#[test]
fn texts_outside_the_grammar_are_refused() {
    for text in [
        "abc", "", "m", "30", "30 m", " 30m", "30m ", "30M", "12345m", "30mins", "30min",
        "2hr", "3d10", "3d1:15", "3d10:1", "3d10:155", "3d10-15", "3da", "3dayss", "3m10:15",
        "3h10:15", "-3m", "+3m", "3.5h", "3d24:00", "3d10:60", "3d99h99", "\u{663}m",
        "30m\n",
    ] {
        assert_eq!(parse_delay(text), None, "{:?}", text);
    }
}

#[test]
fn thirty_minutes_from_now() {
    let t = extract_date(&parse_delay("30m").unwrap(), at(SUMMER_NOON));
    assert_eq!(t, Some(at(SUMMER_NOON + 30 * 60)));
}

#[test]
fn two_hours_from_now() {
    let now = Timestamp {
        secs: SUMMER_NOON,
        nanos: 123_456_789,
    };
    let t = extract_date(&parse_delay("2h").unwrap(), now);
    assert_eq!(
        t,
        Some(Timestamp {
            secs: SUMMER_NOON + 2 * 3600,
            nanos: 123_456_789
        })
    );
}

#[test]
fn three_days_from_now() {
    let t = extract_date(&parse_delay("3d").unwrap(), at(WINTER_NOON));
    assert_eq!(t, Some(at(WINTER_NOON + 3 * 86400)));
}

#[test]
fn three_days_from_now_at_a_quarter_past_ten() {
    // 2021-06-04 10:15 in Paris is 08:15 UTC.
    let t = extract_date(&parse_delay("3d10:15").unwrap(), at(SUMMER_NOON));
    assert_eq!(t, Some(at(SUMMER_NOON + 3 * 86400 - (3 * 3600 + 45 * 60))));
    assert_eq!(t, Some(at(1_622_794_500)));
}

#[test]
fn one_day_from_now_in_winter_time() {
    // 2021-01-11 08:30 in Paris is 07:30 UTC.
    let t = extract_date(&parse_delay("1d08h30").unwrap(), at(WINTER_NOON));
    assert_eq!(t, Some(at(1_610_350_200)));
}

#[test]
fn the_day_changes_with_the_zone() {
    // 2021-06-01T22:30:00Z is 00:30 on the second of June in Paris.
    let late = at(SUMMER_NOON + 10 * 3600 + 30 * 60);
    let t = extract_date(&parse_delay("0d09:00").unwrap(), late);
    // 2021-06-02 09:00 in Paris is 07:00 UTC.
    assert_eq!(t, Some(at(SUMMER_NOON - 12 * 3600 + 86400 + 7 * 3600)));
}

#[test]
fn a_local_time_that_does_not_exist_gives_no_instant() {
    // 2021-03-27T12:00:00Z; on the 28th the clocks in Paris skip from 02:00 to 03:00.
    let now = at(1_616_846_400);
    assert_eq!(extract_date(&parse_delay("1d02:30").unwrap(), now), None);
    assert_eq!(
        move_to_clock(at(1_616_846_400 + 86400), Clock { hour: 2, minute: 30 }),
        None
    );
    assert_eq!(
        extract_date(&parse_delay("1d03:30").unwrap(), now),
        Some(at(1_616_846_400 + 86400 - 12 * 3600 + 3600 + 30 * 60))
    );
}

#[test]
fn an_instant_out_of_range_gives_none() {
    assert_eq!(extract_date(&parse_delay("1m").unwrap(), at(i64::MAX - 59)), None);
    assert_eq!(
        extract_date(&parse_delay("1m").unwrap(), at(i64::MAX - 60)),
        Some(at(i64::MAX))
    );
    assert_eq!(extract_date(&parse_delay("1d10:00").unwrap(), at(i64::MAX - 86400)), None);
}

#[test]
fn instants_are_ordered_by_seconds_then_nanoseconds() {
    let a = Timestamp { secs: 5, nanos: 10 };
    let b = Timestamp { secs: 5, nanos: 11 };
    let c = Timestamp { secs: 6, nanos: 0 };
    assert!(a.has_reached(&a));
    assert!(b.has_reached(&a));
    assert!(!a.has_reached(&b));
    assert!(c.has_reached(&b));
    assert!(!b.has_reached(&c));
    assert_eq!(a.plus_seconds(-5), Some(Timestamp { secs: 0, nanos: 10 }));
    assert_eq!(at(i64::MIN).plus_seconds(-1), None);
}

#[test]
fn plan_names_the_instant_or_the_reason() {
    let now = at(SUMMER_NOON);
    assert_eq!(plan("30m", "hello", now), Ok(at(SUMMER_NOON + 1800)));
    assert_eq!(
        plan("abc", "hello", now),
        Err("the time parameter is invalid".to_string())
    );
    let long: String = "x".repeat(1901);
    assert_eq!(
        plan("30m", &long, now),
        Err("Your message is too long".to_string())
    );
    let fits: String = "\u{e9}".repeat(1900);
    assert_eq!(plan("30m", &fits, now), Ok(at(SUMMER_NOON + 1800)));
    assert_eq!(
        plan("abc", &long, now),
        Err("the time parameter is invalid".to_string())
    );
}

#[test]
fn remind_me_stores_a_reminder() {
    let mut store = ReminderStore::new();
    let inv = Invocation {
        author: 42,
        channel: 7,
    };
    let r = remind_me(
        &mut store,
        &words(&["!remindme", "2h", "call home"]),
        &inv,
        at(SUMMER_NOON),
    );
    assert_eq!(r, Ok(Some(":ok:".to_string())));
    assert_eq!(store.len(), 1);
    assert_eq!(
        store.get(0),
        Some(&Reminder {
            id: 1,
            author: 42,
            channel: 7,
            content: "call home".to_string(),
            trigger_date: at(SUMMER_NOON + 7200),
        })
    );
}

#[test]
fn remind_me_refuses_without_storing() {
    let mut store = ReminderStore::new();
    let inv = Invocation {
        author: 42,
        channel: 7,
    };
    let r = remind_me(
        &mut store,
        &words(&["!remindme", "abc", "call home"]),
        &inv,
        at(SUMMER_NOON),
    );
    assert_eq!(r, Ok(Some("the time parameter is invalid".to_string())));
    assert_eq!(store.len(), 0);
    let long: String = "y".repeat(2000);
    let r = remind_me(
        &mut store,
        &words(&["!remindme", "1d", &long]),
        &inv,
        at(SUMMER_NOON),
    );
    assert_eq!(r, Ok(Some("Your message is too long".to_string())));
    assert_eq!(store.len(), 0);
}

#[test]
fn identifiers_are_handed_out_in_order() {
    let mut store = ReminderStore::new();
    assert_eq!(store.add(fresh(1, 1, "a", at(10))), Some(1));
    assert_eq!(store.add(fresh(1, 1, "b", at(20))), Some(2));
    assert!(store.delete(1));
    assert!(!store.delete(1));
    assert_eq!(store.add(fresh(1, 1, "c", at(30))), Some(3));
    assert_eq!(store.find(2), Some(0));
    assert_eq!(store.find(3), Some(1));
    assert_eq!(store.find(1), None);
    assert_eq!(store.len(), 2);
}

#[test]
fn a_delivery_mentions_the_author_and_carries_the_clock() {
    let d = deliver(&Reminder {
        id: 9,
        author: 173013989180178432,
        channel: 5,
        content: "hello".to_string(),
        trigger_date: at(0),
    });
    assert_eq!(
        d,
        Delivery {
            reminder: 9,
            channel: 5,
            text: "<@173013989180178432> hello".to_string(),
            reaction: '\u{231A}',
        }
    );
    let zero = deliver(&Reminder {
        id: 1,
        author: 0,
        channel: 5,
        content: String::new(),
        trigger_date: at(0),
    });
    assert_eq!(zero.text, "<@0> ");
    let max = deliver(&Reminder {
        id: 1,
        author: u64::MAX,
        channel: 5,
        content: "x".to_string(),
        trigger_date: at(0),
    });
    assert_eq!(max.text, "<@18446744073709551615> x");
}

#[test]
fn a_due_reminder_is_delivered_and_deleted_on_the_next_tick() {
    let now = at(SUMMER_NOON);
    let mut store = ReminderStore::new();
    store.add(fresh(42, 7, "hello", at(SUMMER_NOON - 1)));
    let out = store.tick(now);
    assert_eq!(
        out,
        vec![Delivery {
            reminder: 1,
            channel: 7,
            text: "<@42> hello".to_string(),
            reaction: '\u{231A}',
        }]
    );
    assert_eq!(store.len(), 0);
}

#[test]
fn a_second_tick_delivers_nothing_again() {
    let now = at(SUMMER_NOON);
    let mut store = ReminderStore::new();
    store.add(fresh(42, 7, "hello", at(SUMMER_NOON - 1)));
    assert_eq!(store.tick(now).len(), 1);
    assert_eq!(store.tick(now), vec![]);
    assert_eq!(store.tick(at(SUMMER_NOON + 1_000_000)), vec![]);
}

#[test]
fn a_tick_takes_what_is_due_and_leaves_the_rest_in_order() {
    let now = at(100);
    let mut store = ReminderStore::new();
    store.add(fresh(1, 1, "late", at(150)));
    store.add(fresh(2, 2, "due", at(50)));
    store.add(fresh(3, 3, "now", at(100)));
    store.add(fresh(4, 4, "later", at(101)));
    store.add(fresh(5, 5, "long due", at(-5)));
    let snapshot = store.due(now);
    assert_eq!(store.len(), 5);
    let out = store.tick(now);
    assert_eq!(out, snapshot);
    let ids: Vec<i32> = out.iter().map(|d| d.reminder).collect();
    assert_eq!(ids, vec![2, 3, 5]);
    assert_eq!(store.len(), 2);
    assert_eq!(store.get(0).map(|r| r.id), Some(1));
    assert_eq!(store.get(1).map(|r| r.id), Some(4));
    let next = store.tick(at(101));
    assert_eq!(next.len(), 1);
    assert_eq!(next[0].reminder, 4);
    assert_eq!(next[0].text, "<@4> later");
}

#[test]
fn a_reminder_is_due_at_its_instant_to_the_nanosecond() {
    let mut store = ReminderStore::new();
    store.add(fresh(1, 1, "x", Timestamp { secs: 10, nanos: 500 }));
    assert_eq!(store.due(Timestamp { secs: 10, nanos: 499 }).len(), 0);
    assert_eq!(store.due(Timestamp { secs: 10, nanos: 500 }).len(), 1);
    assert_eq!(store.due(Timestamp { secs: 9, nanos: 999_999_999 }).len(), 0);
}

#[test]
fn deleting_after_each_delivery_empties_the_due_list() {
    let now = at(100);
    let mut store = ReminderStore::new();
    store.add(fresh(1, 1, "a", at(1)));
    store.add(fresh(2, 2, "b", at(200)));
    store.add(fresh(3, 3, "c", at(3)));
    for d in store.due(now) {
        assert!(store.delete(d.reminder));
    }
    assert_eq!(store.due(now), vec![]);
    assert_eq!(store.len(), 1);
}

#[test]
fn the_grammar_is_that_of_the_pattern() {
    let pattern = regex::Regex::new(
        r#"^([0-9]{1,4})((m(inutes?)?)|(h(ours?)?)|(d(ays?)?(([0-9]{2})[:h]([0-9]{2})?)?))$"#,
    )
    .unwrap();
    let pieces = [
        "", "0", "1", "7", "12", "23", "24", "59", "60", "99", "m", "min", "minute", "minutes",
        "h", "hour", "hours", "d", "da", "day", "days", "s", ":", " ", "a", "y", "\n", "\u{e9}",
    ];
    let mut checked = 0;
    for a in pieces {
        for b in pieces {
            for c in pieces {
                for d in pieces {
                    let text = format!("{}{}{}{}", a, b, c, d);
                    let ours = parse_delay(&text);
                    match pattern.captures(&text) {
                        None => assert_eq!(ours, None, "{:?}", text),
                        Some(groups) => {
                            let amount: u16 = groups[1].parse().unwrap();
                            let hour = groups.get(10).map(|h| h.as_str().parse::<u8>().unwrap());
                            let minute =
                                groups.get(11).map_or(0, |m| m.as_str().parse::<u8>().unwrap());
                            let unit = if groups.get(3).is_some() {
                                Unit::Minutes
                            } else if groups.get(5).is_some() {
                                Unit::Hours
                            } else {
                                Unit::Days
                            };
                            let expected = match hour {
                                Some(h) if h >= 24 || minute >= 60 => None,
                                Some(h) => Some(Delay {
                                    amount,
                                    unit,
                                    clock: Some(Clock { hour: h, minute }),
                                }),
                                None => Some(Delay {
                                    amount,
                                    unit,
                                    clock: None,
                                }),
                            };
                            assert_eq!(ours, expected, "{:?}", text);
                        }
                    }
                    checked += 1;
                }
            }
        }
    }
    assert!(checked > 600_000);
}

fn kept(id: i32) -> Reminder {
    Reminder {
        id,
        author: 1,
        channel: 2,
        content: format!("#{}", id),
        trigger_date: at(id as i64),
    }
}

#[test]
fn a_store_is_restored_with_its_identifiers() {
    let mut store = ReminderStore::restore(vec![kept(7), kept(3), kept(12), kept(5)]).unwrap();
    assert_eq!(store.len(), 4);
    assert_eq!(store.get(0), Some(&kept(7)));
    assert_eq!(store.get(3), Some(&kept(5)));
    assert_eq!(store.add(fresh(1, 1, "new", at(0))), Some(13));
    let mut empty = ReminderStore::restore(vec![]).unwrap();
    assert_eq!(empty.add(fresh(1, 1, "new", at(0))), Some(1));
}

#[test]
fn a_store_with_bad_identifiers_is_refused() {
    assert!(ReminderStore::restore(vec![kept(1), kept(2), kept(1)]).is_none());
    assert!(ReminderStore::restore(vec![kept(0)]).is_none());
    assert!(ReminderStore::restore(vec![kept(1), kept(-4)]).is_none());
    assert!(ReminderStore::restore(vec![kept(i32::MAX)]).is_none());
    assert!(ReminderStore::restore(vec![kept(i32::MAX - 1)]).is_some());
}

#[test]
fn a_full_store_refuses_new_reminders() {
    let mut store = ReminderStore::restore(vec![kept(i32::MAX - 1)]).unwrap();
    assert_eq!(store.add(fresh(1, 1, "new", at(0))), None);
    assert_eq!(store.len(), 1);
    let inv = Invocation {
        author: 42,
        channel: 7,
    };
    let r = remind_me(&mut store, &words(&["!remindme", "2h", "x"]), &inv, at(0));
    assert_eq!(r, Err("no identifier is left for a reminder".to_string()));
    let r = remind_me(&mut store, &words(&["!remindme", "2x", "x"]), &inv, at(0));
    assert_eq!(r, Ok(Some("the time parameter is invalid".to_string())));
    assert_eq!(store.len(), 1);
}
