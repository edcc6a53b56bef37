use rbot_discord::role::Role;
use rbot_discord::users::{Authorization, UserTable};

const ROLES: [Role; 4] = [Role::Guest, Role::Member, Role::Moderator, Role::Admin];

#[test]
fn ranks_rise_with_the_roles() {
    assert_eq!(Role::Guest.level(), 0);
    assert_eq!(Role::Member.level(), 1);
    assert_eq!(Role::Moderator.level(), 2);
    assert_eq!(Role::Admin.level(), 3);
}

#[test]
fn a_role_allows_what_its_rank_reaches() {
    for (i, current) in ROLES.iter().enumerate() {
        for (j, required) in ROLES.iter().enumerate() {
            assert_eq!(current.allows(*required), i >= j);
        }
    }
}

#[test]
fn role_names_are_read_back() {
    for role in ROLES {
        assert_eq!(Role::parse(role.name()), Some(role));
    }
    assert_eq!(Role::Admin.name(), "Admin");
    assert_eq!(Role::parse("admin"), None);
    assert_eq!(Role::parse(""), None);
    assert_eq!(Role::parse("Guest "), None);
}

#[test]
fn authorize_compares_ranks_for_every_pair() {
    for (i, current) in ROLES.iter().enumerate() {
        for (j, required) in ROLES.iter().enumerate() {
            let mut users = UserTable::new();
            users.user_add(5, current.name());
            let a = users.authorize(5, *required);
            assert_eq!(
                a,
                Authorization {
                    allowed: i >= j,
                    role: Some(*current)
                }
            );
            assert_eq!(users.len(), 1);
        }
    }
}

#[test]
fn authorize_provisions_on_first_contact() {
    let mut users = UserTable::new();
    let a = users.authorize(99, Role::Member);
    assert_eq!(
        a,
        Authorization {
            allowed: false,
            role: Some(Role::Guest)
        }
    );
    assert_eq!(users.len(), 1);
    assert_eq!(users.users[0].discordid, 99);
    assert_eq!(users.users[0].role, "Guest");
    let b = users.authorize(99, Role::Guest);
    assert_eq!(
        b,
        Authorization {
            allowed: true,
            role: Some(Role::Guest)
        }
    );
    assert_eq!(users.len(), 1);
}

#[test]
fn an_unreadable_role_is_never_allowed() {
    let mut users = UserTable::new();
    users.user_add(3, "Overlord");
    for required in ROLES {
        assert_eq!(
            users.authorize(3, required),
            Authorization {
                allowed: false,
                role: None
            }
        );
    }
    assert_eq!(users.len(), 1);
}

#[test]
fn the_first_record_of_an_identity_counts() {
    let mut users = UserTable::new();
    users.user_add(1, "Member");
    users.user_add(2, "Admin");
    users.user_add(1, "Admin");
    assert_eq!(users.find(1), Some(0));
    assert_eq!(users.find(2), Some(1));
    assert_eq!(users.find(3), None);
    assert!(!users.authorize(1, Role::Admin).allowed);
    assert!(!users.ensure_known(2));
    assert!(users.ensure_known(3));
    assert_eq!(users.find(3), Some(3));
}
