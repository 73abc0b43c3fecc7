use kerblam::options::ContainerBackend;
use kerblam::options::ExecutionOptions;
use kerblam::options::KerblamTomlOptions;
use kerblam::options::Pipe;
use kerblam::options::find_pipe_by_name;
use kerblam::paths::extension_of;
use kerblam::paths::file_name;
use kerblam::paths::file_stem;
use kerblam::paths::join_path;
use kerblam::paths::name_before_first_dot;
use kerblam::paths::normalize_path;
use kerblam::paths::push_fragment;
use kerblam::paths::strip_prefix_path;
use kerblam::utils::WalkEntry;
use kerblam::utils::YesNo;
use kerblam::utils::find_dirs;
use kerblam::utils::find_files;

#[test]
fn push_fragment_appends_verbatim() {
    assert_eq!(push_fragment("/t/a.txt", ".x1y2z"), "/t/a.txt.x1y2z".to_string());
}

#[test]
fn join_path_inserts_one_separator() {
    assert_eq!(join_path("/proj", "data/in"), "/proj/data/in".to_string());
    assert_eq!(join_path("/proj/", "data"), "/proj/data".to_string());
    assert_eq!(join_path("/proj", "/abs/file"), "/abs/file".to_string());
}

#[test]
fn file_name_and_stem_and_extension() {
    assert_eq!(file_name("/a/b/run.sh"), "run.sh".to_string());
    assert_eq!(file_stem("/a/b/run.sh"), "run".to_string());
    assert_eq!(extension_of("/a/b/run.sh"), Some("sh".to_string()));
    assert_eq!(extension_of("/a/b/noext"), None);
    assert_eq!(extension_of("/a/b/.hidden"), None);
    assert_eq!(file_stem("archive.tar.gz"), "archive.tar".to_string());
    assert_eq!(name_before_first_dot("env.dockerfile"), "env".to_string());
    assert_eq!(name_before_first_dot("plain"), "plain".to_string());
}

#[test]
fn strip_prefix_respects_component_boundaries() {
    assert_eq!(
        strip_prefix_path("/proj/data/in/a.txt", "/proj/data/in"),
        Some("a.txt".to_string())
    );
    assert_eq!(strip_prefix_path("/proj/database", "/proj/data"), None);
    assert_eq!(strip_prefix_path("/proj/data", "/proj/data"), Some("".to_string()));
}

#[test]
fn normalize_path_resolves_dots() {
    assert_eq!(normalize_path("/a/./b/../c"), "/a/c".to_string());
    assert_eq!(normalize_path("a//b/"), "a/b".to_string());
    assert_eq!(normalize_path("../x"), "x".to_string());
    assert_eq!(normalize_path("/.."), "/".to_string());
    assert_eq!(normalize_path("./"), "".to_string());
}

#[test]
fn find_files_applies_kind_and_filters() {
    let entries = vec![
        WalkEntry { path: "/d/in".to_string(), is_file: false, is_dir: true },
        WalkEntry { path: "/d/in/a.txt".to_string(), is_file: true, is_dir: false },
        WalkEntry { path: "/d/out/b.txt".to_string(), is_file: true, is_dir: false },
        WalkEntry { path: "/d/c.txt".to_string(), is_file: true, is_dir: false },
    ];
    let files = find_files(&entries, Some(vec!["/d/out".to_string()]));
    assert_eq!(files, vec!["/d/in/a.txt".to_string(), "/d/c.txt".to_string()]);
    let all_files = find_files(&entries, None);
    assert_eq!(all_files.len(), 3);
    let dirs = find_dirs(&entries, None);
    assert_eq!(dirs, vec!["/d/in".to_string()]);
}

#[test]
fn input_files_drop_nested_managed_directories() {
    // The intermediate directory is `/p/data` and contains the input
    // directory `/p/data/in`: listing the inputs must drop nothing of the
    // input directory itself, but skip the output directory nested by
    // accident.
    let config = KerblamTomlOptions {
        meta: None,
        data: None,
        code: None,
        execution: ExecutionOptions { backend: ContainerBackend::Docker, workdir: None },
    };
    let entries = vec![
        WalkEntry { path: "/p/data/in/a.csv".to_string(), is_file: true, is_dir: false },
        WalkEntry { path: "/p/data/in/test_a.csv".to_string(), is_file: true, is_dir: false },
        WalkEntry { path: "/p/data/out/result.csv".to_string(), is_file: true, is_dir: false },
        WalkEntry { path: "/p/data/in".to_string(), is_file: false, is_dir: true },
    ];
    let files = config.input_files("/p", &entries);
    assert_eq!(
        files,
        vec!["/p/data/in/a.csv".to_string(), "/p/data/in/test_a.csv".to_string()]
    );
}

#[test]
fn pipes_are_found_by_stem_last_match_winning() {
    let pipes = vec![
        Pipe { pipe_path: "/w/run.sh".to_string(), env_path: None },
        Pipe {
            pipe_path: "/w/run.makefile".to_string(),
            env_path: Some("/e/run.dockerfile".to_string()),
        },
        Pipe { pipe_path: "/w/other.sh".to_string(), env_path: None },
    ];
    let hit = find_pipe_by_name(&pipes, Some("run".to_string())).unwrap();
    assert_eq!(hit.pipe_path, "/w/run.makefile".to_string());
    assert!(find_pipe_by_name(&pipes, Some("absent".to_string())).is_err());
    assert!(find_pipe_by_name(&pipes, None).is_err());
}

#[test]
fn listings_resolve_to_pipes_with_envs() {
    let config = KerblamTomlOptions {
        meta: None,
        data: None,
        code: None,
        execution: ExecutionOptions { backend: ContainerBackend::Docker, workdir: None },
    };
    let workflows = vec![
        "/w/run.sh".to_string(),
        "/w/notes.txt".to_string(),
        "/w/build.makefile".to_string(),
    ];
    let envs = vec![
        "/e/default.dockerfile".to_string(),
        "/e/run.dockerfile".to_string(),
    ];
    let pipes = config.pipes(&workflows, &envs);
    assert_eq!(pipes.len(), 2);
    assert_eq!(pipes[0].pipe_path, "/w/run.sh".to_string());
    assert_eq!(pipes[0].env_path, Some("/e/run.dockerfile".to_string()));
    // No matching definition: the default one steps in.
    assert_eq!(pipes[1].pipe_path, "/w/build.makefile".to_string());
    assert_eq!(pipes[1].env_path, Some("/e/default.dockerfile".to_string()));
    // Without any definitions the pipes run bare.
    let bare = config.pipes(&workflows, &Vec::new());
    assert_eq!(bare.len(), 2);
    assert!(bare[0].env_path.is_none());
}

#[test]
fn pipe_name_and_drop_env() {
    let pipe = Pipe {
        pipe_path: "/w/process_csv.sh".to_string(),
        env_path: Some("/e/default.dockerfile".to_string()),
    };
    assert_eq!(pipe.name(), "process_csv".to_string());
    let local = pipe.drop_env();
    assert!(local.env_path.is_none());
    assert_eq!(local.pipe_path, "/w/process_csv.sh".to_string());
}

#[test]
fn yes_no_parses_single_characters() {
    assert!(YesNo::parse_char('y').unwrap().as_bool());
    assert!(!YesNo::parse_char('n').unwrap().as_bool());
    assert!(YesNo::parse_char('x').is_err());
}
