use mneme::socket;
use mneme::socket::{
    dir_candidates, dir_step, explicit_dir, is_session_stale, is_socket, join, lock_attempt,
    lock_file_name, lock_path, may_unlink, no_socket_dir, socket_path, validate_session_name,
    verify_dir, verify_shared_base, DirEnv, DirError, DirKind, DirStep, LockState, MkdirOutcome,
    NameError,
};

#[test]
fn valid_session_names() {
    assert!(validate_session_name("work").is_ok());
    assert!(validate_session_name("my-session").is_ok());
    assert!(validate_session_name("build_123").is_ok());
    assert!(validate_session_name("test.dev").is_ok());
}

#[test]
fn invalid_session_names() {
    assert!(validate_session_name("").is_err());
    assert!(validate_session_name("a/b").is_err());
    assert!(validate_session_name("a b").is_err());
    assert!(validate_session_name(".hidden").is_err());
    assert!(validate_session_name("-flag").is_err());
    assert!(validate_session_name(&"a".repeat(65)).is_err());
    assert!(validate_session_name("hello\x00world").is_err());
}

#[test]
fn validate_session_name_rejects_dotdot() {
    assert!(socket::validate_session_name("..").is_err());
    assert!(socket::validate_session_name("../etc").is_err());
}

#[test]
fn each_name_error() {
    assert_eq!(validate_session_name(""), Err(NameError::Empty));
    assert_eq!(validate_session_name(&"/".repeat(65)), Err(NameError::TooLong));
    assert_eq!(validate_session_name(&"a".repeat(64)), Ok(()));
    // 33 characters of two bytes each.
    assert_eq!(validate_session_name(&"\u{e9}".repeat(33)), Err(NameError::TooLong));
    assert_eq!(validate_session_name("\u{e9}"), Err(NameError::BadCharacter));
    assert_eq!(validate_session_name("-a/b"), Err(NameError::BadCharacter));
    assert_eq!(validate_session_name(".a"), Err(NameError::BadStart));
    assert_eq!(NameError::Empty.message(), "session name cannot be empty");
    assert_eq!(NameError::TooLong.message(), "session name too long (max 64 characters)");
    assert_eq!(
        NameError::BadCharacter.message(),
        "session name must contain only alphanumeric characters, dots, underscores, or hyphens"
    );
    assert_eq!(
        NameError::BadStart.message(),
        "session name must not start with '.' or '-'"
    );
}

#[test]
fn socket_path_and_lock_path_share_directory() {
    let s = socket_path("/run/mneme", "share-1");
    let l = lock_path("/run/mneme", "share-1");
    assert_eq!(s, "/run/mneme/share-1");
    assert_eq!(l, "/run/mneme/share-1.lock");
    assert_eq!(lock_file_name("share-1"), "share-1.lock");
}

#[test]
fn joining_paths() {
    assert_eq!(join("/a", "b"), "/a/b");
    assert_eq!(join("/a/", "b"), "/a/b");
    assert_eq!(join("", "b"), "b");
    assert_eq!(join("/a", "/b"), "/b");
    assert_eq!(join("/", "b"), "/b");
    for (d, p) in [("/a", "b"), ("/a/", "b"), ("", "b"), ("/a", "/b"), ("a", "")] {
        assert_eq!(join(d, p), std::path::Path::new(d).join(p).to_str().unwrap());
    }
}

fn env(
    socket_dir: Option<&str>,
    runtime: Option<&str>,
    home: Option<&str>,
    tmp: Option<&str>,
) -> DirEnv {
    DirEnv {
        socket_dir: socket_dir.map(|s| s.to_string()),
        runtime_dir: runtime.map(|s| s.to_string()),
        home: home.map(|s| s.to_string()),
        tmp_dir: tmp.map(|s| s.to_string()),
        uid: 1000,
    }
}

#[test]
fn directories_in_order() {
    let cs = dir_candidates(&env(
        Some("/my/dir"),
        Some("/run/user/1000"),
        Some("/home/u"),
        Some("/var/tmp"),
    ));
    let got: Vec<(DirKind, &str, &str)> =
        cs.iter().map(|c| (c.kind, c.base.as_str(), c.dir.as_str())).collect();
    assert_eq!(
        got,
        vec![
            (DirKind::Explicit, "", "/my/dir"),
            (DirKind::Personal, "", "/run/user/1000/mneme"),
            (DirKind::Personal, "", "/home/u/.mneme"),
            (DirKind::Shared, "/var/tmp/mneme", "/var/tmp/mneme/1000"),
            (DirKind::Shared, "/tmp/mneme", "/tmp/mneme/1000"),
        ]
    );
}

#[test]
fn unset_and_empty_variables_are_skipped() {
    let cs = dir_candidates(&env(Some(""), None, Some("/h"), Some("")));
    assert_eq!(cs.len(), 2);
    assert_eq!(cs[0].dir, "/h/.mneme");
    assert_eq!(cs[1].dir, "/tmp/mneme/1000");
    assert_eq!(dir_candidates(&env(None, None, None, None)).len(), 1);
}

#[test]
fn socket_dir_honours_env_override() {
    let cs = dir_candidates(&env(Some("/tmp/given"), None, None, None));
    assert_eq!(cs[0].dir, "/tmp/given");
    assert_eq!(cs[0].kind, DirKind::Explicit);
    assert_eq!(dir_step(&cs, 0, false), DirStep::Try(0));
    assert_eq!(dir_step(&cs, 1, true), DirStep::Found(0));
}

#[test]
fn first_usable_directory_wins() {
    let cs = dir_candidates(&env(Some("/a"), Some("/b"), Some("/c"), Some("/d")));
    let usable = [false, false, true, false, true];
    let mut tried = 0;
    let mut ok = false;
    let end = loop {
        match dir_step(&cs, tried, ok) {
            DirStep::Try(i) => {
                ok = usable[i];
                tried = i + 1;
            }
            end => break end,
        }
    };
    assert_eq!(end, DirStep::Found(2));
    assert_eq!(dir_step(&cs, 5, false), DirStep::NotFound);
    assert_eq!(no_socket_dir(), "could not find or create socket directory");
}

#[test]
fn directories_are_checked() {
    assert_eq!(verify_dir(0o040700, 1000, 1000), Ok(()));
    assert_eq!(verify_dir(0o041700, 1000, 1000), Ok(()));
    assert_eq!(verify_dir(0o100700, 1000, 1000), Err(DirError::NotADirectory));
    assert_eq!(verify_dir(0o120777, 1000, 1000), Err(DirError::NotADirectory));
    assert_eq!(verify_dir(0o040700, 0, 1000), Err(DirError::NotOwned));
    assert_eq!(verify_dir(0o040750, 1000, 1000), Err(DirError::Insecure));
    assert_eq!(verify_dir(0o040701, 1000, 1000), Err(DirError::Insecure));
    assert_eq!(verify_shared_base(0o041777), Ok(()));
    assert_eq!(verify_shared_base(0o120777), Err(DirError::NotADirectory));
    assert_eq!(DirError::NotADirectory.message(), "not a directory");
    assert_eq!(DirError::NotOwned.message(), "directory not owned by current user");
    assert_eq!(DirError::Insecure.message(), "directory has insecure permissions");
}

#[test]
fn directory_the_user_named() {
    assert_eq!(explicit_dir(MkdirOutcome::Created, false), Ok(()));
    assert_eq!(explicit_dir(MkdirOutcome::Exists, true), Ok(()));
    assert_eq!(explicit_dir(MkdirOutcome::Exists, false), Err(DirError::NotADirectory));
}

#[test]
fn only_own_sockets_are_removed() {
    assert!(is_socket(0o140600));
    assert!(!is_socket(0o100600));
    assert!(!is_socket(0o060600));
    assert!(may_unlink(0o140600, 5, 5));
    assert!(!may_unlink(0o140600, 6, 5));
    assert!(!may_unlink(0o100600, 5, 5));
    assert!(!may_unlink(0o120777, 5, 5));
}

#[test]
fn is_session_stale_when_lock_file_missing() {
    assert!(is_session_stale(LockState::Missing), "missing lock file should be stale");
}

#[test]
fn is_session_stale_when_lock_unheld() {
    assert!(
        is_session_stale(lock_attempt(true, false)),
        "unheld lock file should be reported stale"
    );
}

#[test]
fn is_session_stale_returns_false_when_held() {
    assert!(
        !is_session_stale(lock_attempt(false, true)),
        "held lock should not be reported stale"
    );
    assert!(!is_session_stale(lock_attempt(false, false)));
}
