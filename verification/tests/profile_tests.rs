use kerblam::cache::Cache;
use kerblam::cache::check_last_profile;
use kerblam::cache::delete_last_profile;
use kerblam::options::ContainerBackend;
use kerblam::options::DataOptions;
use kerblam::options::ExecutionOptions;
use kerblam::options::KerblamTomlOptions;
use kerblam::options::ProfileSpec;
use kerblam::profile::Profile;
use kerblam::profile::ProfileError;
use kerblam::profile::extract_profile_paths;
use kerblam::profile::get_salt;
use kerblam::profile::infer_test_data;
use kerblam::run::should_update_timestamps;
use kerblam::run::touch_paths;

fn config_with_profile(name: &str, entries: Vec<(&str, &str)>) -> KerblamTomlOptions {
    KerblamTomlOptions {
        meta: None,
        data: Some(DataOptions {
            paths: None,
            profiles: Some(vec![ProfileSpec {
                name: name.to_string(),
                entries: entries
                    .into_iter()
                    .map(|(a, b)| (a.to_string(), b.to_string()))
                    .collect(),
            }]),
            remote: None,
        }),
        code: None,
        execution: ExecutionOptions { backend: ContainerBackend::Docker, workdir: None },
    }
}

fn strings(v: Vec<&str>) -> Vec<String> {
    v.into_iter().map(|s| s.to_string()).collect()
}

#[test]
fn salts_have_the_asked_length() {
    let s = get_salt(5);
    assert_eq!(s.chars().count(), 5);
    assert!(s.chars().all(|c| c.is_ascii_alphanumeric()));
    let empty = get_salt(0);
    assert_eq!(empty.len(), 0);
}

#[test]
fn profile_resolution_stashes_before_installing() {
    let profile = Profile::from(
        vec![("a.txt".to_string(), "b.txt".to_string())],
        "/proj/data/in".to_string(),
        "/proj/.kerblam/scratch".to_string(),
    );
    let movers = profile.to_filemovers();
    assert_eq!(movers.len(), 2);
    // The stash comes first: the original moves to a salted scratch name.
    assert_eq!(movers[0].get_from(), "/proj/data/in/a.txt".to_string());
    let stash_to = movers[0].get_to();
    assert!(stash_to.starts_with("/proj/.kerblam/scratch/a.txt."));
    assert_eq!(stash_to.len(), "/proj/.kerblam/scratch/a.txt.".len() + 5);
    // The install follows: the substitute takes the original's place.
    assert_eq!(movers[1].get_from(), "/proj/data/in/b.txt".to_string());
    assert_eq!(movers[1].get_to(), "/proj/data/in/a.txt".to_string());
}

#[test]
fn wildcard_substitute_only_hides_the_original() {
    let profile = Profile::from(
        vec![("a.txt".to_string(), "_".to_string())],
        "/r".to_string(),
        "/t".to_string(),
    );
    let movers = profile.to_filemovers();
    assert_eq!(movers.len(), 1);
    assert_eq!(movers[0].get_from(), "/r/a.txt".to_string());
}

#[test]
fn inferred_test_profile_pairs_prefixed_files() {
    let paths = strings(vec![
        "/d/test_data.csv",
        "/d/data.csv",
        "/d/test_orphan.csv",
        "/d/other.csv",
    ]);
    let pairs = infer_test_data(paths);
    assert_eq!(pairs.len(), 1);
    assert_eq!(pairs[0].0, "/d/data.csv".to_string());
    assert_eq!(pairs[0].1, "/d/test_data.csv".to_string());
}

#[test]
fn preflight_lists_every_missing_file() {
    // Profile {"a.txt": "b.txt"} where a.txt exists and b.txt does not:
    // resolution fails listing b.txt, and nothing is handed out to move.
    let config = config_with_profile("small", vec![("a.txt", "b.txt")]);
    let existing = strings(vec!["/proj/data/in/a.txt"]);
    let r = extract_profile_paths(
        &config,
        "small",
        Vec::new(),
        "/proj",
        true,
        &existing,
        true,
    );
    match r {
        Err(ProfileError::MissingFiles(list)) => {
            assert_eq!(list, strings(vec!["b.txt"]));
        },
        _ => panic!("expected the missing-file list"),
    }
}

#[test]
fn preflight_collects_all_violations_not_just_the_first() {
    let config = config_with_profile("small", vec![("a.txt", "b.txt"), ("c.txt", "d.txt")]);
    let existing = strings(vec!["/proj/data/in/c.txt"]);
    let r = extract_profile_paths(
        &config,
        "small",
        Vec::new(),
        "/proj",
        true,
        &existing,
        true,
    );
    match r {
        Err(ProfileError::MissingFiles(list)) => {
            assert_eq!(list, strings(vec!["a.txt", "b.txt", "d.txt"]));
        },
        _ => panic!("expected the missing-file list"),
    }
}

#[test]
fn resolution_succeeds_when_everything_exists() {
    let config = config_with_profile("small", vec![("a.txt", "b.txt")]);
    let existing = strings(vec!["/proj/data/in/a.txt", "/proj/data/in/b.txt"]);
    let movers =
        extract_profile_paths(&config, "small", Vec::new(), "/proj", true, &existing, true)
            .unwrap();
    assert_eq!(movers.len(), 2);
    assert_eq!(movers[0].get_from(), "/proj/data/in/a.txt".to_string());
    assert_eq!(movers[1].get_from(), "/proj/data/in/b.txt".to_string());
    assert_eq!(movers[1].get_to(), "/proj/data/in/a.txt".to_string());
}

#[test]
fn occupied_scratch_directory_aborts_early() {
    let config = config_with_profile("small", vec![("a.txt", "b.txt")]);
    let r = extract_profile_paths(
        &config,
        "small",
        Vec::new(),
        "/proj",
        false,
        &Vec::new(),
        true,
    );
    assert!(matches!(r, Err(ProfileError::ScratchOccupied)));
}

#[test]
fn unknown_profile_is_reported() {
    let config = config_with_profile("small", vec![("a.txt", "b.txt")]);
    let r = extract_profile_paths(
        &config,
        "missing",
        Vec::new(),
        "/proj",
        true,
        &Vec::new(),
        false,
    );
    assert!(matches!(r, Err(ProfileError::MissingProfile)));
}

#[test]
fn test_profile_falls_back_to_inference() {
    let config = config_with_profile("small", vec![("a.txt", "b.txt")]);
    let input_files = strings(vec!["/proj/data/in/test_x.csv", "/proj/data/in/x.csv"]);
    let movers = extract_profile_paths(
        &config,
        "test",
        input_files,
        "/proj",
        true,
        &Vec::new(),
        false,
    )
    .unwrap();
    assert_eq!(movers.len(), 2);
    assert_eq!(movers[0].get_from(), "/proj/data/in/x.csv".to_string());
    assert!(movers[0]
        .get_to()
        .starts_with("/proj/.kerblam/scratch/x.csv."));
    assert_eq!(movers[1].get_from(), "/proj/data/in/test_x.csv".to_string());
    assert_eq!(movers[1].get_to(), "/proj/data/in/x.csv".to_string());
}

#[test]
fn same_profile_twice_skips_timestamp_updates() {
    // First run with profile `test`: nothing cached, timestamps refresh.
    let (cached, cache) = check_last_profile(None, "test".to_string());
    assert_eq!(cached, None);
    assert!(should_update_timestamps(cached));
    assert_eq!(cache.last_executed_profile, Some("test".to_string()));
    // Second run with the same profile: the cache says so, the refresh is
    // skipped, so no substituted file's modification time changes.
    let (cached2, _) = check_last_profile(Some(cache), "test".to_string());
    assert_eq!(cached2, Some(true));
    assert!(!should_update_timestamps(cached2));
    // A different profile refreshes again.
    let stale = Cache { last_executed_profile: Some("test".to_string()), run_metadata: None };
    let (cached3, _) = check_last_profile(Some(stale), "other".to_string());
    assert_eq!(cached3, Some(false));
    assert!(should_update_timestamps(cached3));
}

#[test]
fn switching_away_touches_exactly_the_old_profile_files() {
    let profile = Profile::from(
        vec![("a.txt".to_string(), "b.txt".to_string())],
        "/proj/data/in".to_string(),
        "/proj/.kerblam/scratch".to_string(),
    );
    let movers = profile.to_filemovers();
    let touched = touch_paths(&movers);
    assert_eq!(
        touched,
        strings(vec!["/proj/data/in/a.txt", "/proj/data/in/b.txt"])
    );
    let cleared = delete_last_profile(Some(Cache {
        last_executed_profile: Some("test".to_string()),
        run_metadata: None,
    }));
    assert_eq!(cleared.last_executed_profile, None);
}
