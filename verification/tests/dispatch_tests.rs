use rbot_discord::commands::{
    allowed_channel, respond, Action, CommandDescriptor, Dispatch, Invocation, RegisterError, Registry, Response,
};
use rbot_discord::process::process_command;
use rbot_discord::role::Role;
use rbot_discord::users::UserTable;

fn command(trigger: &str, channel: Option<u64>, permission: Role, min: usize, max: usize) -> CommandDescriptor {
    CommandDescriptor {
        trigger: trigger.to_string(),
        channel,
        permission,
        argument_min: min,
        argument_max: max,
        usage: format!("{} <args>", trigger),
        handler: 0,
    }
}

fn registry() -> Registry {
    let mut r = Registry::new();
    assert_eq!(r.register(command("!ping", None, Role::Guest, 0, 0)), Ok(()));
    assert_eq!(r.register(command("!remindme", None, Role::Guest, 2, 2)), Ok(()));
    assert_eq!(r.register(command("!ban", Some(77), Role::Moderator, 1, 3)), Ok(()));
    r
}

fn tokens(items: &[&str]) -> Vec<String> {
    items.iter().map(|s| s.to_string()).collect()
}

const HERE: Invocation = Invocation { author: 10, channel: 77 };

#[test]
fn unmatched_tokens_are_not_handled() {
    let r = registry();
    let mut users = UserTable::new();
    for text in ["!pin", "!pingg", "!PING", "ping", " !ping", ""] {
        let d = r.dispatch(&mut users, &tokens(&[text]), &HERE);
        assert_eq!(d.decision, Dispatch::Unhandled, "{:?}", text);
        assert_eq!(d.action, Action::Nothing);
    }
    let d = r.dispatch(&mut users, &tokens(&[]), &HERE);
    assert_eq!(d.decision, Dispatch::Unhandled);
    assert_eq!(users.len(), 0);
}

#[test]
fn a_registered_trigger_is_handled() {
    let r = registry();
    let mut users = UserTable::new();
    let d = r.dispatch(&mut users, &tokens(&["!ping"]), &HERE);
    assert_eq!(d.decision, Dispatch::Invoke { command: 0 });
    assert_eq!(d.action, Action::Nothing);
    assert_eq!(users.len(), 1);
    assert_eq!(r.lookup(&"!remindme".to_string()), Some(1));
    assert_eq!(r.lookup(&"!remind".to_string()), None);
    assert_eq!(r.get(1).map(|c| c.trigger.clone()), Some("!remindme".to_string()));
    assert!(r.get(3).is_none());
    assert_eq!(r.len(), 3);
}

#[test]
fn a_restricted_command_redirects_elsewhere() {
    let r = registry();
    let mut users = UserTable::new();
    users.user_add(10, "Admin");
    let elsewhere = Invocation { author: 10, channel: 78 };
    let d = r.dispatch(&mut users, &tokens(&["!ban", "x"]), &elsewhere);
    assert_eq!(
        d.decision,
        Dispatch::WrongChannel {
            command: 2,
            allowed: 77
        }
    );
    assert_eq!(
        d.action,
        Action::Say(
            "I am not allowed to issue this command in this channel ! Use <#77> instead."
                .to_string()
        )
    );
}

#[test]
fn the_channel_is_checked_before_the_role() {
    let r = registry();
    let mut users = UserTable::new();
    let elsewhere = Invocation { author: 10, channel: 78 };
    let d = r.dispatch(&mut users, &tokens(&["!ban"]), &elsewhere);
    assert_eq!(
        d.decision,
        Dispatch::WrongChannel {
            command: 2,
            allowed: 77
        }
    );
    assert_eq!(users.len(), 0);
}

#[test]
fn a_low_role_is_denied_with_its_name() {
    let r = registry();
    let mut users = UserTable::new();
    users.user_add(10, "Member");
    let d = r.dispatch(&mut users, &tokens(&["!ban", "x"]), &HERE);
    assert_eq!(
        d.decision,
        Dispatch::Denied {
            command: 2,
            role: Some(Role::Member)
        }
    );
    assert_eq!(
        d.action,
        Action::Say("You(Member) are not allowed to run this command".to_string())
    );
}

#[test]
fn the_role_is_checked_before_the_arguments() {
    let r = registry();
    let mut users = UserTable::new();
    let d = r.dispatch(&mut users, &tokens(&["!ban"]), &HERE);
    assert_eq!(
        d.decision,
        Dispatch::Denied {
            command: 2,
            role: Some(Role::Guest)
        }
    );
    assert_eq!(
        d.action,
        Action::Say("You(Guest) are not allowed to run this command".to_string())
    );
    assert_eq!(users.len(), 1);
}

#[test]
fn an_unreadable_role_is_denied_as_unknown() {
    let r = registry();
    let mut users = UserTable::new();
    users.user_add(10, "???");
    let d = r.dispatch(&mut users, &tokens(&["!ping"]), &HERE);
    assert_eq!(
        d.decision,
        Dispatch::Denied {
            command: 0,
            role: None
        }
    );
    assert_eq!(
        d.action,
        Action::Say("You(unknown) are not allowed to run this command".to_string())
    );
}

#[test]
fn an_equal_rank_suffices() {
    let r = registry();
    let mut users = UserTable::new();
    users.user_add(10, "Moderator");
    let d = r.dispatch(&mut users, &tokens(&["!ban", "x"]), &HERE);
    assert_eq!(d.decision, Dispatch::Invoke { command: 2 });
}

#[test]
fn the_bounds_decide_whether_a_command_runs() {
    let r = registry();
    for n in 0..6usize {
        let mut users = UserTable::new();
        users.user_add(10, "Admin");
        let mut t = tokens(&["!ban"]);
        for _ in 0..n {
            t.push("x".to_string());
        }
        let d = r.dispatch(&mut users, &t, &HERE);
        if n < 1 {
            assert_eq!(d.decision, Dispatch::NotEnoughArguments { command: 2 });
            assert_eq!(
                d.action,
                Action::Reply("No enough arguments\nUsage: !ban <args>".to_string())
            );
        } else if n > 3 {
            assert_eq!(d.decision, Dispatch::TooManyArguments { command: 2 });
            assert_eq!(
                d.action,
                Action::Reply("Too many arguments\nUsage: !ban <args>".to_string())
            );
        } else {
            assert_eq!(d.decision, Dispatch::Invoke { command: 2 });
            assert_eq!(d.action, Action::Nothing);
        }
    }
}

#[test]
fn decide_and_announce_agree_with_dispatch() {
    let r = registry();
    let mut users = UserTable::new();
    let d = r.decide(&mut users, &tokens(&["!remindme", "10m"]), &HERE);
    assert_eq!(d, Dispatch::NotEnoughArguments { command: 1 });
    assert_eq!(
        r.announce(&d),
        Action::Reply("No enough arguments\nUsage: !remindme <args>".to_string())
    );
    assert_eq!(r.announce(&Dispatch::Unhandled), Action::Nothing);
    assert_eq!(r.announce(&Dispatch::Invoke { command: 1 }), Action::Nothing);
    assert_eq!(
        r.announce(&Dispatch::TooManyArguments { command: 9 }),
        Action::Nothing
    );
}

#[test]
fn a_command_is_handled_and_anything_else_is_not() {
    let r = registry();
    let mut users = UserTable::new();
    let d = process_command(&r, &mut users, &tokens(&["!ping", "extra"]), &HERE);
    assert!(d.handled());
    assert_eq!(d.decision, Dispatch::TooManyArguments { command: 0 });
    assert_eq!(
        d.action,
        Action::Reply("Too many arguments\nUsage: !ping <args>".to_string())
    );
    let d = process_command(&r, &mut users, &tokens(&["hello", "!ping"]), &HERE);
    assert!(!d.handled());
    assert_eq!(d.action, Action::Nothing);
}

#[test]
fn a_restriction_fits_its_own_channel_only() {
    assert!(allowed_channel(None, 5));
    assert!(allowed_channel(Some(5), 5));
    assert!(!allowed_channel(Some(6), 5));
}

#[test]
fn registration_refuses_duplicates_and_bad_bounds() {
    let mut r = registry();
    assert_eq!(
        r.register(command("!ping", Some(1), Role::Admin, 0, 5)),
        Err(RegisterError::DuplicateTrigger)
    );
    assert_eq!(
        r.register(command("!new", None, Role::Guest, 3, 2)),
        Err(RegisterError::InvalidBounds)
    );
    assert_eq!(
        r.register(command("!ping", None, Role::Guest, 3, 2)),
        Err(RegisterError::InvalidBounds)
    );
    assert_eq!(r.len(), 3);
    assert_eq!(r.register(command("!Ping", None, Role::Guest, 0, 0)), Ok(()));
    assert_eq!(r.len(), 4);
}

#[test]
fn results_are_mapped_to_actions() {
    assert_eq!(
        respond("!x", Ok(None)),
        Response {
            action: Action::Nothing,
            log: None
        }
    );
    assert_eq!(
        respond("!x", Ok(Some(":ok:".to_string()))),
        Response {
            action: Action::React('\u{2705}'),
            log: None
        }
    );
    assert_eq!(
        respond("!x", Ok(Some(":ok: ".to_string()))),
        Response {
            action: Action::Reply(":ok: ".to_string()),
            log: None
        }
    );
    assert_eq!(
        respond("!x", Ok(Some("pong".to_string()))),
        Response {
            action: Action::Reply("pong".to_string()),
            log: None
        }
    );
    assert_eq!(
        respond("!x", Err("boom".to_string())),
        Response {
            action: Action::Reply("Bipboop this is broken <@173013989180178432>".to_string()),
            log: Some("Command Error: !x => boom".to_string())
        }
    );
}
