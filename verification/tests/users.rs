use std::sync::Arc;

use keli_core::table::Table;
use keli_core::user::{
    apply_user_delta_to_keyed_arc_map, apply_user_delta_to_keyed_map, apply_user_delta_to_vec,
    CoreUser, CoreUserDelta, CoreUserDeltaResult, UserStore,
};

fn user(uuid: &str) -> CoreUser {
    CoreUser {
        id: 7,
        uuid: uuid.to_string(),
        password: None,
        email: None,
        speed_limit: 0,
        device_limit: 0,
    }
}

fn limited_user(uuid: &str, speed_limit: u64) -> CoreUser {
    CoreUser {
        speed_limit,
        ..user(uuid)
    }
}

fn with_password(uuid: &str, password: &str) -> CoreUser {
    CoreUser {
        password: Some(password.to_string()),
        ..user(uuid)
    }
}

#[test]
fn apply_user_delta_to_keyed_arc_map_preserves_unchanged_user_arcs() {
    let user_a = Arc::new(user("user-a"));
    let mut users = Table::new();
    users.insert("user-a".to_string(), Arc::clone(&user_a));

    let result = apply_user_delta_to_keyed_arc_map(
        &mut users,
        &CoreUserDelta {
            added: vec![user("user-b")],
            ..CoreUserDelta::default()
        },
        |user: &CoreUser| Some(user.uuid.clone()),
    );

    assert_eq!(result.added, 1);
    assert_eq!(result.active_users, 2);
    assert!(Arc::ptr_eq(
        &user_a,
        users
            .get(&"user-a".to_string())
            .expect("existing user should remain")
    ));
}

#[test]
fn apply_user_delta_to_keyed_arc_map_replaces_only_updated_user_arc() {
    let user_a = Arc::new(user("user-a"));
    let user_b = Arc::new(user("user-b"));
    let mut users = Table::new();
    users.insert("user-a".to_string(), Arc::clone(&user_a));
    users.insert("user-b".to_string(), Arc::clone(&user_b));
    let mut updated_a = user("user-a");
    updated_a.password = Some("rotated".to_string());

    let result = apply_user_delta_to_keyed_arc_map(
        &mut users,
        &CoreUserDelta {
            updated: vec![updated_a],
            ..CoreUserDelta::default()
        },
        |user: &CoreUser| Some(user.credential().to_string()),
    );

    assert_eq!(result.updated, 1);
    assert_eq!(result.active_users, 2);
    assert!(users.get(&"user-a".to_string()).is_none());
    assert!(!Arc::ptr_eq(
        &user_a,
        users
            .get(&"rotated".to_string())
            .expect("updated user should move keys")
    ));
    assert!(Arc::ptr_eq(
        &user_b,
        users
            .get(&"user-b".to_string())
            .expect("unchanged user should remain")
    ));
}

#[test]
fn keeps_go_compatible_traffic_key() {
    let user = user("user-a");

    assert_eq!(user.traffic_key("panel|vless|1"), "panel|vless|1|user-a");
    assert_eq!(user.credential(), "user-a");
}

#[test]
fn user_store_replaces_uuid_users() {
    let mut store = UserStore::from_uuid_users(&[user("user-a")]);

    assert!(store.get("user-a").is_some());
    assert!(store.get("user-b").is_none());

    store.replace_uuid_users(&[user("user-b")]);

    assert!(store.get("user-a").is_none());
    assert!(store.get("user-b").is_some());
}

#[test]
fn user_store_replaces_large_user_sets() {
    let mut store = UserStore::default();
    let users = (0..10_000)
        .map(|index| user(&format!("user-{index:05}")))
        .collect::<Vec<_>>();

    store.replace_uuid_users(&users);

    assert!(store.get("user-00000").is_some());
    assert!(store.get("user-05000").is_some());
    assert!(store.get("user-09999").is_some());
    assert!(store.get("user-10000").is_none());
}

#[test]
fn user_store_applies_uuid_delta() {
    let mut store = UserStore::from_uuid_users(&[user("user-a"), user("user-b")]);
    let old_user_b = store.get_arc("user-b").expect("old user b snapshot");
    let result = store.apply_uuid_delta(&CoreUserDelta {
        added: vec![user("user-c")],
        updated: vec![limited_user("user-b", 1024)],
        deleted: vec!["user-a".to_string()],
        ..CoreUserDelta::default()
    });

    assert_eq!(result.added, 1);
    assert_eq!(result.updated, 1);
    assert_eq!(result.deleted, 1);
    assert_eq!(result.active_users, 2);
    assert!(store.get("user-a").is_none());
    assert_eq!(store.get("user-b").expect("user b").speed_limit, 1024);
    assert!(store.get("user-c").is_some());
    assert_eq!(
        old_user_b.speed_limit, 0,
        "existing readers keep a stable pre-delta snapshot"
    );
}

#[test]
fn user_store_rekeys_updated_credentials() {
    let mut initial = user("user-a");
    initial.password = Some("old".to_string());
    let mut store =
        UserStore::from_keyed_users(&[initial], |user: &CoreUser| user.credential().to_string());
    let mut updated = user("user-a");
    updated.password = Some("new".to_string());

    let result = store.apply_keyed_delta(
        &CoreUserDelta {
            updated: vec![updated],
            ..CoreUserDelta::default()
        },
        |user: &CoreUser| user.credential().to_string(),
    );

    assert_eq!(result.updated, 1);
    assert!(store.get("old").is_none());
    assert!(store.get("new").is_some());
}

#[test]
fn user_store_counts_duplicate_added_as_update() {
    let mut store = UserStore::from_uuid_users(&[]);

    let result = store.apply_uuid_delta(&CoreUserDelta {
        added: vec![user("user-a"), limited_user("user-a", 2048)],
        ..CoreUserDelta::default()
    });

    assert_eq!(result.added, 1);
    assert_eq!(result.updated, 1);
    assert_eq!(result.active_users, 1);
    assert_eq!(store.get("user-a").expect("user a").speed_limit, 2048);
}

#[test]
fn user_store_reports_missing_update_and_delete() {
    let mut store = UserStore::from_uuid_users(&[user("user-a")]);

    let result = store.apply_uuid_delta(&CoreUserDelta {
        updated: vec![user("missing-update")],
        deleted: vec!["missing-delete".to_string()],
        ..CoreUserDelta::default()
    });

    assert_eq!(result.missing_updated, 1);
    assert_eq!(result.missing_deleted, 1);
    assert_eq!(result.active_users, 1);
    assert!(store.get("user-a").is_some());
}

#[test]
fn vec_delta_full_snapshot_replaces_users() {
    let mut users = vec![user("user-a"), user("user-b")];

    let result = apply_user_delta_to_vec(
        &mut users,
        &CoreUserDelta {
            full: Some(vec![user("user-c")]),
            ..CoreUserDelta::default()
        },
    );

    assert!(result.full_applied);
    assert_eq!(result.active_users, 1);
    assert_eq!(users, vec![user("user-c")]);
}

#[test]
fn keyed_map_delta_updates_by_uuid_and_key() {
    let mut old = user("user-a");
    old.password = Some("old".to_string());
    let mut users = Table::new();
    users.insert(old.credential().to_string(), old);
    let mut updated = user("user-a");
    updated.password = Some("new".to_string());

    let result = apply_user_delta_to_keyed_map(
        &mut users,
        &CoreUserDelta {
            updated: vec![updated],
            ..CoreUserDelta::default()
        },
        |user: &CoreUser| Some(user.credential().to_string()),
    );

    assert_eq!(result.updated, 1);
    assert!(!users.contains_key(&"old".to_string()));
    assert!(users.contains_key(&"new".to_string()));
}

#[test]
fn blank_users_are_left_out() {
    assert!(user("").is_empty());
    assert!(user(" \t\n").is_empty());
    assert!(!user(" a ").is_empty());

    let store = UserStore::from_uuid_users(&[user("  "), user("user-a")]);
    assert_eq!(store.len(), 1);
    assert!(!store.is_empty());

    let mut users = vec![user("user-a")];
    let result = apply_user_delta_to_vec(
        &mut users,
        &CoreUserDelta {
            full: Some(vec![user(""), user("user-b"), user(" ")]),
            ..CoreUserDelta::default()
        },
    );
    assert_eq!(result.active_users, 1);
    assert_eq!(users, vec![user("user-b")]);
}

#[test]
fn password_is_the_credential_where_there_is_one() {
    assert_eq!(with_password("user-a", "secret").credential(), "secret");
    assert_eq!(with_password("user-a", "").credential(), "");
}

#[test]
fn list_is_ordered_by_uuid() {
    let store = UserStore::from_uuid_users(&[user("user-c"), user("user-a"), user("user-b")]);
    let uuids: Vec<String> = store.list().into_iter().map(|user| user.uuid).collect();
    assert_eq!(uuids, vec!["user-a", "user-b", "user-c"]);
}

#[test]
fn applying_nothing_changes_nothing() {
    let mut store = UserStore::from_uuid_users(&[user("user-a"), user("user-b")]);
    let before = store.list();
    let result = store.apply_uuid_delta(&CoreUserDelta::default());
    assert_eq!(
        result,
        CoreUserDeltaResult {
            active_users: 2,
            ..CoreUserDeltaResult::default()
        }
    );
    assert_eq!(store.list(), before);
}

#[test]
fn full_list_ignores_the_rest_of_a_change() {
    let mut store = UserStore::from_uuid_users(&[user("user-a")]);
    let result = store.apply_uuid_delta(&CoreUserDelta {
        added: vec![user("user-x")],
        deleted: vec!["user-b".to_string()],
        full: Some(vec![user("user-b"), user("user-c")]),
        ..CoreUserDelta::default()
    });
    assert!(result.full_applied);
    assert_eq!(result.added, 0);
    assert_eq!(result.deleted, 0);
    assert_eq!(result.active_users, 2);
    assert!(store.get("user-a").is_none());
    assert!(store.get("user-x").is_none());
    assert!(store.get("user-b").is_some());
}

#[test]
fn users_without_a_key_are_not_kept() {
    let mut users: Table<String, CoreUser> = Table::new();
    let key = |user: &CoreUser| {
        if user.uuid.starts_with("user-") {
            Some(user.uuid.clone())
        } else {
            None
        }
    };
    let result = apply_user_delta_to_keyed_map(
        &mut users,
        &CoreUserDelta {
            added: vec![user("user-a"), user("other")],
            ..CoreUserDelta::default()
        },
        key,
    );
    assert_eq!(result.active_users, 1);
    assert!(users.contains_key(&"user-a".to_string()));
    assert!(!users.contains_key(&"other".to_string()));
}

#[test]
fn store_says_how_many_users_it_has() {
    let store = UserStore::from_uuid_users(&[with_password("a", "secret"), user("b")]);
    assert_eq!(store.debug_text(), "UserStore { len: 2, .. }");
}

#[test]
fn shared_users_change_as_plain_ones_do() {
    let key = |user: &CoreUser| Some(user.credential().to_string());
    let mut plain = Table::new();
    let mut shared = Table::new();
    for user in [with_password("a", "pa"), with_password("b", "pb")] {
        plain.insert(user.credential().to_string(), user.clone());
        shared.insert(user.credential().to_string(), Arc::new(user));
    }
    let delta = CoreUserDelta {
        added: vec![with_password("c", "pc")],
        updated: vec![with_password("a", "new"), user("z")],
        deleted: vec!["b".to_string(), "q".to_string()],
        ..CoreUserDelta::default()
    };
    let first = apply_user_delta_to_keyed_map(&mut plain, &delta, key);
    let second = apply_user_delta_to_keyed_arc_map(&mut shared, &delta, key);
    assert_eq!(first, second);
    assert_eq!(plain.len(), shared.len());
    for name in ["new", "pc"] {
        let name = name.to_string();
        assert_eq!(plain.get(&name), shared.get(&name).map(|user| user.as_ref()));
        assert!(plain.contains_key(&name));
    }
}

#[test]
fn same_change_twice_changes_nothing_more() {
    let delta = CoreUserDelta {
        added: vec![user("c"), limited_user("b", 2), user(" ")],
        updated: vec![limited_user("c", 3), limited_user("a", 4), user("z")],
        deleted: vec!["d".to_string(), "q".to_string()],
        ..CoreUserDelta::default()
    };
    let mut users = vec![user("d"), user("a"), user("b"), limited_user("a", 9)];
    apply_user_delta_to_vec(&mut users, &delta);
    let once = users.clone();
    let limits: Vec<(&str, u64)> = once
        .iter()
        .map(|user| (user.uuid.as_str(), user.speed_limit))
        .collect();
    assert_eq!(limits, vec![("a", 4), ("b", 2), ("c", 3)]);
    apply_user_delta_to_vec(&mut users, &delta);
    assert_eq!(users, once);

    let full = CoreUserDelta {
        full: Some(vec![user("y"), user("x"), user("")]),
        ..CoreUserDelta::default()
    };
    apply_user_delta_to_vec(&mut users, &full);
    let once = users.clone();
    apply_user_delta_to_vec(&mut users, &full);
    assert_eq!(users, once);
    assert_eq!(users.len(), 2);
}

#[test]
fn users_of_one_uuid_keep_their_order() {
    let mut users = Vec::new();
    let full = CoreUserDelta {
        full: Some(vec![
            limited_user("b", 1),
            limited_user("a", 2),
            limited_user("b", 3),
            limited_user("a", 4),
        ]),
        ..CoreUserDelta::default()
    };
    apply_user_delta_to_vec(&mut users, &full);
    let limits: Vec<u64> = users.iter().map(|user| user.speed_limit).collect();
    assert_eq!(limits, vec![2, 4, 1, 3]);
}

#[test]
fn keyed_table_has_the_last_user_of_each_uuid() {
    let key = |user: &CoreUser| Some(user.credential().to_string());
    let mut users = Table::new();
    for user in [with_password("a", "pa"), with_password("b", "pb")] {
        users.insert(user.credential().to_string(), user);
    }
    let result = apply_user_delta_to_keyed_map(
        &mut users,
        &CoreUserDelta {
            added: vec![
                with_password("c", "c1"),
                with_password("c", "c2"),
                with_password("d", "pd"),
            ],
            updated: vec![
                with_password("a", "a1"),
                with_password("a", "a2"),
                with_password("e", "pe"),
            ],
            deleted: vec!["b".to_string(), "d".to_string()],
            ..CoreUserDelta::default()
        },
        key,
    );
    assert_eq!(result.active_users, 2);
    assert_eq!(users.len(), 2);
    assert_eq!(users.get(&"a2".to_string()).expect("a").uuid, "a");
    assert_eq!(users.get(&"c2".to_string()).expect("c").uuid, "c");
    for gone in ["pa", "a1", "pb", "c1", "pd", "pe"] {
        assert!(!users.contains_key(&gone.to_string()));
    }
}
