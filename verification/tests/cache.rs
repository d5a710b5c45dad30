use samply_mcp::mcp::cache::{
    CacheAction, FileCache, FileFingerprint, ProfileCacheState, ProfileFingerprint,
};
use std::sync::Arc;

fn version(modified_ns: i128) -> FileFingerprint {
    FileFingerprint {
        modified_ns,
        len: 10,
    }
}

fn fingerprint(modified_ns: i128) -> ProfileFingerprint {
    ProfileFingerprint {
        profile: version(modified_ns),
        symbols: None,
    }
}

fn load(cache: &mut ProfileCacheState<String>, path: &Vec<u8>, modified_ns: i128, name: &str) {
    assert!(cache.arrive(path));
    assert!(matches!(cache.step(path, None), CacheAction::Load));
    let served = cache.finish_load(path, fingerprint(modified_ns), Arc::new(name.to_string()));
    assert_eq!(served.as_str(), name);
}

#[test]
fn requests_for_one_path_share_a_load() {
    let path = b"profile.json".to_vec();
    let mut cache: ProfileCacheState<String> = ProfileCacheState::new();
    for _ in 0..8 {
        assert!(cache.arrive(&path));
    }
    assert!(matches!(cache.step(&path, None), CacheAction::Load));
    for _ in 0..7 {
        assert!(matches!(cache.step(&path, None), CacheAction::Wait));
    }
    let loaded = Arc::new("shared".to_string());
    let first = cache.finish_load(&path, fingerprint(1), Arc::clone(&loaded));
    assert!(Arc::ptr_eq(&first, &loaded));
    for _ in 0..7 {
        assert!(matches!(cache.step(&path, None), CacheAction::ReadFingerprint));
        match cache.step(&path, Some(fingerprint(1))) {
            CacheAction::Serve(profile) => assert!(Arc::ptr_eq(&profile, &loaded)),
            _ => panic!("the loaded profile is served"),
        }
    }
    assert_eq!(cache.users(), 8);
    assert_eq!(cache.loads(), 1);
    assert!(!cache.is_awaited(&path));
    for left in (0..8).rev() {
        assert_eq!(cache.release(), left == 0);
    }
}

#[test]
fn other_paths_wait_for_the_active_profile() {
    let first = b"first.json".to_vec();
    let second = b"second.json".to_vec();
    let mut cache: ProfileCacheState<String> = ProfileCacheState::new();
    load(&mut cache, &first, 1, "first");
    assert!(cache.arrive(&second));
    assert!(matches!(cache.step(&second, None), CacheAction::Wait));
    assert!(cache.release());
    assert!(matches!(cache.step(&second, None), CacheAction::Load));
    cache.finish_load(&second, fingerprint(2), Arc::new("second".to_string()));
    assert_eq!(cache.loads(), 2);
}

#[test]
fn changed_files_are_loaded_again() {
    let path = b"profile.json".to_vec();
    let mut cache: ProfileCacheState<String> = ProfileCacheState::new();
    load(&mut cache, &path, 1, "first");
    assert!(cache.arrive(&path));
    assert!(matches!(cache.step(&path, None), CacheAction::ReadFingerprint));
    assert!(matches!(cache.step(&path, Some(fingerprint(2))), CacheAction::Wait));
    assert!(cache.release());
    assert!(matches!(cache.step(&path, Some(fingerprint(2))), CacheAction::Load));
    cache.finish_load(&path, fingerprint(2), Arc::new("second".to_string()));
    assert_eq!(cache.loads(), 2);
}

#[test]
fn awaited_profiles_stay() {
    let first = b"first.json".to_vec();
    let second = b"second.json".to_vec();
    let mut cache: ProfileCacheState<String> = ProfileCacheState::new();
    load(&mut cache, &first, 1, "first");
    assert!(cache.arrive(&first));
    assert!(cache.arrive(&second));
    assert!(cache.release());
    assert!(matches!(cache.step(&second, None), CacheAction::Wait));
    cache.remove_profile_waiter(&first);
    assert!(matches!(cache.step(&second, None), CacheAction::Load));
}

#[test]
fn failed_loads_leave_nothing() {
    let path = b"profile.json".to_vec();
    let mut cache: ProfileCacheState<String> = ProfileCacheState::new();
    assert!(cache.arrive(&path));
    assert!(matches!(cache.step(&path, None), CacheAction::Load));
    cache.fail_load();
    assert!(cache.arrive(&path));
    assert!(matches!(cache.step(&path, None), CacheAction::Load));
}

#[test]
fn symbols_belong_to_the_fingerprint() {
    let with_symbols = ProfileFingerprint {
        profile: version(1),
        symbols: Some(version(2)),
    };
    let changed = ProfileFingerprint {
        profile: version(1),
        symbols: Some(version(3)),
    };
    assert!(with_symbols.same(&with_symbols));
    assert!(!with_symbols.same(&changed));
    assert!(!with_symbols.same(&fingerprint(1)));
}

#[test]
fn files_are_held_by_path_and_version() {
    let path = b"perf.data".to_vec();
    let mut cache: FileCache<String> = FileCache::new();
    assert!(cache.get(&path, &version(1)).is_none());
    cache.put(&path, version(1), Arc::new("held".to_string()));
    assert_eq!(cache.get(&path, &version(1)).unwrap().as_str(), "held");
    assert!(cache.get(&path, &version(2)).is_none());
    assert!(cache.get(&b"other".to_vec(), &version(1)).is_none());
}

#[test]
fn an_idle_profile_is_served_again_until_its_file_changes() {
    let path = b"profile.json".to_vec();
    let mut cache: ProfileCacheState<String> = ProfileCacheState::new();
    load(&mut cache, &path, 1, "first");
    assert!(cache.release());
    assert!(cache.arrive(&path));
    assert!(matches!(cache.step(&path, None), CacheAction::ReadFingerprint));
    match cache.step(&path, Some(fingerprint(1))) {
        CacheAction::Serve(profile) => assert_eq!(profile.as_str(), "first"),
        _ => panic!("the profile in memory is served"),
    }
    assert_eq!(cache.loads(), 1);
    assert!(cache.release());
    assert!(cache.arrive(&path));
    assert!(matches!(cache.step(&path, Some(fingerprint(2))), CacheAction::Load));
    let served = cache.finish_load(&path, fingerprint(2), Arc::new("second".to_string()));
    assert_eq!(served.as_str(), "second");
    assert_eq!(cache.loads(), 2);
}
