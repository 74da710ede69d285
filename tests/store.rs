use term_core::records::{LaunchProfile, RecentEntry};
use term_core::store::{
    add_favorite, delete_profile, list_favorites, list_profiles, list_recents, list_tags,
    remove_favorite, remove_tag, save_profile, save_profile_with_id, set_tag, tags_for,
    touch_recent, touch_recent_at, CoreError, PersistedState,
};

#[test]
fn recent_entries_sort() {
    let mut entries = vec![
        RecentEntry {
            path: "b".into(),
            last_opened_utc: 1,
        },
        RecentEntry {
            path: "a".into(),
            last_opened_utc: 5,
        },
    ];
    entries.sort_by(|a, b| b.last_opened_utc.cmp(&a.last_opened_utc));
    assert_eq!(entries[0].path, "a");
}

#[test]
fn list_recents_puts_latest_first() {
    let mut state = PersistedState::new();
    state.recents.push(RecentEntry { path: "b".into(), last_opened_utc: 1 });
    state.recents.push(RecentEntry { path: "a".into(), last_opened_utc: 5 });
    let listed = list_recents(&state);
    assert_eq!(listed[0].path, "a");
    assert_eq!(listed[1].path, "b");
}

#[test]
fn favorite_added_twice_is_kept_once() {
    let mut state = PersistedState::new();
    add_favorite(&mut state, "/a".to_string());
    add_favorite(&mut state, "/a".to_string());
    assert_eq!(list_favorites(&state), vec!["/a".to_string()]);
}

#[test]
fn removing_absent_favorite_changes_nothing() {
    let mut state = PersistedState::new();
    add_favorite(&mut state, "/a".to_string());
    remove_favorite(&mut state, "/zzz");
    assert_eq!(state.favorites, vec!["/a".to_string()]);
    remove_favorite(&mut state, "/a");
    assert!(state.favorites.is_empty());
}

#[test]
fn favorites_list_alphabetically() {
    let mut state = PersistedState::new();
    for p in ["/c", "/a", "/b", "/B"] {
        add_favorite(&mut state, p.to_string());
    }
    assert_eq!(state.favorites, vec!["/c", "/a", "/b", "/B"]);
    assert_eq!(list_favorites(&state), vec!["/B", "/a", "/b", "/c"]);
}

#[test]
fn scenario_favorites_then_recents() {
    let mut state = PersistedState::new();
    add_favorite(&mut state, "/a".to_string());
    add_favorite(&mut state, "/a".to_string());
    assert_eq!(list_favorites(&state), vec!["/a".to_string()]);
    touch_recent_at(&mut state, "/a".to_string(), 1000);
    touch_recent_at(&mut state, "/b".to_string(), 1001);
    let listed = list_recents(&state);
    assert_eq!(
        listed,
        vec![
            RecentEntry { path: "/b".into(), last_opened_utc: 1001 },
            RecentEntry { path: "/a".into(), last_opened_utc: 1000 },
        ]
    );
}

#[test]
fn touch_recent_uses_the_clock() {
    let mut state = PersistedState::new();
    touch_recent(&mut state, "/a".to_string());
    touch_recent(&mut state, "/b".to_string());
    let listed = list_recents(&state);
    assert_eq!(listed.len(), 2);
    assert!(listed[0].last_opened_utc >= listed[1].last_opened_utc);
    assert!(listed[1].last_opened_utc > 1_600_000_000);
}

#[test]
fn recents_keep_the_hundred_latest() {
    let mut state = PersistedState::new();
    for i in 0..105i64 {
        touch_recent_at(&mut state, format!("/p{}", i), 1000 + i);
    }
    assert_eq!(state.recents.len(), 100);
    let listed = list_recents(&state);
    assert_eq!(listed.len(), 100);
    for (k, e) in listed.iter().enumerate() {
        let i = 104 - k as i64;
        assert_eq!(e.path, format!("/p{}", i));
        assert_eq!(e.last_opened_utc, 1000 + i);
    }
    assert!(!state.recents.iter().any(|e| e.path == "/p4"));
}

#[test]
fn retouch_moves_to_front_without_duplicate() {
    let mut state = PersistedState::new();
    touch_recent_at(&mut state, "/a".to_string(), 1);
    touch_recent_at(&mut state, "/b".to_string(), 2);
    touch_recent_at(&mut state, "/a".to_string(), 3);
    let listed = list_recents(&state);
    assert_eq!(listed.len(), 2);
    assert_eq!(listed[0], RecentEntry { path: "/a".into(), last_opened_utc: 3 });
    assert_eq!(listed[1], RecentEntry { path: "/b".into(), last_opened_utc: 2 });
}

#[test]
fn tag_upsert_ignores_case() {
    let mut state = PersistedState::new();
    set_tag(&mut state, "/p".to_string(), "Work".to_string(), None);
    assert_eq!(state.tags[0].color, "#0a84ff");
    set_tag(&mut state, "/p".to_string(), "work".to_string(), Some("#ffffff".to_string()));
    let tags = list_tags(&state);
    assert_eq!(tags.len(), 1);
    assert_eq!(tags[0].path, "/p");
    assert_eq!(tags[0].tag, "Work");
    assert_eq!(tags[0].color, "#ffffff");
}

#[test]
fn tags_per_path_and_removal() {
    let mut state = PersistedState::new();
    set_tag(&mut state, "/p".to_string(), "work".to_string(), None);
    set_tag(&mut state, "/q".to_string(), "work".to_string(), Some("#111111".to_string()));
    set_tag(&mut state, "/p".to_string(), "home".to_string(), None);
    let on_p = tags_for(&state, "/p");
    assert_eq!(on_p.len(), 2);
    assert_eq!(on_p[0].tag, "work");
    assert_eq!(on_p[1].tag, "home");
    remove_tag(&mut state, "/p", "WORK");
    let tags = list_tags(&state);
    assert_eq!(tags.len(), 2);
    assert_eq!(tags[0].path, "/q");
    assert_eq!(tags[1].tag, "home");
    remove_tag(&mut state, "/r", "home");
    assert_eq!(list_tags(&state).len(), 2);
}

#[test]
fn profile_with_blank_name_is_refused() {
    let mut state = PersistedState::new();
    let r = save_profile(&mut state, None, "", None, None, None, None);
    assert_eq!(r, Err(CoreError::EmptyProfileName));
    let r = save_profile(&mut state, None, "   ", None, None, None, None);
    assert_eq!(r, Err(CoreError::EmptyProfileName));
    assert!(CoreError::EmptyProfileName.is_validation());
    assert!(state.profiles.is_empty());
}

#[test]
fn profile_windows_are_clamped() {
    let mut state = PersistedState::new();
    let p = save_profile(&mut state, None, "x", None, None, None, Some(255)).unwrap();
    assert_eq!(p.windows, 10);
    let p = save_profile(&mut state, None, "y", None, None, None, Some(0)).unwrap();
    assert_eq!(p.windows, 1);
    let p = save_profile(&mut state, None, "z", None, None, None, None).unwrap();
    assert_eq!(p.windows, 1);
    let p = save_profile(&mut state, None, "w", None, None, None, Some(4)).unwrap();
    assert_eq!(p.windows, 4);
    assert_eq!(state.profiles.len(), 4);
}

#[test]
fn profile_saved_under_existing_id_replaces_in_place() {
    let mut state = PersistedState::new();
    save_profile_with_id(&mut state, 1, "one", None, None, None, None).unwrap();
    save_profile_with_id(&mut state, 2, "two", None, None, None, None).unwrap();
    let p = save_profile(
        &mut state,
        Some(1),
        "  renamed ",
        Some("ls".to_string()),
        Some("/tmp".to_string()),
        None,
        Some(3),
    )
    .unwrap();
    assert_eq!(
        p,
        LaunchProfile {
            id: 1,
            name: "renamed".to_string(),
            command: Some("ls".to_string()),
            working_dir: Some("/tmp".to_string()),
            terminal: None,
            windows: 3,
        }
    );
    assert_eq!(state.profiles.len(), 2);
    assert_eq!(state.profiles[0], p);
    assert_eq!(state.profiles[1].name, "two");
}

#[test]
fn fresh_profile_ids_differ() {
    let mut state = PersistedState::new();
    let a = save_profile(&mut state, None, "a", None, None, None, None).unwrap();
    let b = save_profile(&mut state, None, "b", None, None, None, None).unwrap();
    assert_ne!(a.id, b.id);
    assert_eq!(state.profiles.len(), 2);
}

#[test]
fn profiles_list_by_name_ignoring_case() {
    let mut state = PersistedState::new();
    save_profile_with_id(&mut state, 1, "beta", None, None, None, None).unwrap();
    save_profile_with_id(&mut state, 2, "Alpha", None, None, None, None).unwrap();
    save_profile_with_id(&mut state, 3, "Gamma", None, None, None, None).unwrap();
    let names: Vec<String> = list_profiles(&state).into_iter().map(|p| p.name).collect();
    assert_eq!(names, vec!["Alpha", "beta", "Gamma"]);
}

#[test]
fn deleting_profiles() {
    let mut state = PersistedState::new();
    save_profile_with_id(&mut state, 7, "seven", None, None, None, None).unwrap();
    assert_eq!(delete_profile(&mut state, 8), Err(CoreError::ProfileNotFound));
    assert!(!CoreError::ProfileNotFound.is_validation());
    assert_eq!(state.profiles.len(), 1);
    assert_eq!(delete_profile(&mut state, 7), Ok(()));
    assert!(state.profiles.is_empty());
}
