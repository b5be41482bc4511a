use ai_os_kernel::{CanonicalPath, Capability, SandboxConfig, TrustProfile};

#[test]
fn standard_sandbox_is_bound_to_its_pid() {
    assert_eq!(SandboxConfig::standard(5).pid(), 5);
    assert_eq!(SandboxConfig::strict(0).pid(), 0);
    assert_eq!(SandboxConfig::privileged(u32::MAX).pid(), u32::MAX);
}

#[test]
fn standard_sandbox_reads_and_neither_spawns_nor_connects() {
    let config = SandboxConfig::standard(1);
    assert!(config.has_capability(Capability::FileRead));
    assert!(config.has_capability(Capability::SystemInfoRead));
    assert!(!config.has_capability(Capability::FileWrite));
    assert!(!config.has_capability(Capability::ProcessSpawn));
    assert!(!config.has_capability(Capability::NetworkAccess));
}

#[test]
fn strict_sandbox_holds_no_capability() {
    let config = SandboxConfig::strict(1);
    assert!(!config.has_capability(Capability::FileRead));
    assert!(!config.has_capability(Capability::FileWrite));
    assert!(!config.has_capability(Capability::ProcessSpawn));
    assert!(!config.has_capability(Capability::NetworkAccess));
    assert!(!config.has_capability(Capability::SystemInfoRead));
}

#[test]
fn privileged_sandbox_holds_every_capability() {
    let config = SandboxConfig::privileged(1);
    assert!(config.has_capability(Capability::FileRead));
    assert!(config.has_capability(Capability::FileWrite));
    assert!(config.has_capability(Capability::ProcessSpawn));
    assert!(config.has_capability(Capability::NetworkAccess));
    assert!(config.has_capability(Capability::SystemInfoRead));
}

#[test]
fn with_profile_matches_the_named_constructors() {
    let config = SandboxConfig::with_profile(9, TrustProfile::Standard);
    assert_eq!(config.pid(), 9);
    assert!(config.has_capability(Capability::FileRead));
    assert!(!config.has_capability(Capability::ProcessSpawn));
    assert!(config.allowed_paths().is_empty());
}

#[test]
fn fresh_sandbox_allows_no_path() {
    for config in [
        SandboxConfig::standard(1),
        SandboxConfig::strict(1),
        SandboxConfig::privileged(1),
    ] {
        assert!(config.allowed_paths().is_empty());
        assert!(!config.is_path_allowed("/"));
        assert!(!config.is_path_allowed("/tmp"));
        assert!(!config.is_path_allowed("/tmp/test.txt"));
    }
}

#[test]
fn grant_adds_the_capability() {
    let mut config = SandboxConfig::standard(1);
    config.grant(Capability::ProcessSpawn);
    assert!(config.has_capability(Capability::ProcessSpawn));
    assert!(config.has_capability(Capability::FileRead));
    assert!(config.has_capability(Capability::SystemInfoRead));
    assert!(!config.has_capability(Capability::FileWrite));
    assert!(!config.has_capability(Capability::NetworkAccess));
}

#[test]
fn grant_is_idempotent() {
    let mut config = SandboxConfig::strict(1);
    config.grant(Capability::FileWrite);
    config.grant(Capability::FileWrite);
    assert!(config.has_capability(Capability::FileWrite));
    assert!(!config.has_capability(Capability::FileRead));
    assert!(config.allowed_paths().is_empty());
}

#[test]
fn allowed_prefix_covers_itself_and_its_descendants() {
    let mut config = SandboxConfig::standard(5);
    assert!(config.allow_path("/tmp"));
    assert!(config.is_path_allowed("/tmp"));
    assert!(config.is_path_allowed("/tmp/"));
    assert!(config.is_path_allowed("/tmp/test.txt"));
    assert!(config.is_path_allowed("/tmp/a/b/c"));
    assert!(config.is_path_allowed("/tmp/./a/../b"));
    assert!(config.is_path_allowed("/etc/../tmp/x"));
}

#[test]
fn paths_outside_every_prefix_are_refused() {
    let mut config = SandboxConfig::standard(5);
    assert!(config.allow_path("/tmp"));
    assert!(!config.is_path_allowed("/"));
    assert!(!config.is_path_allowed("/etc/passwd"));
    assert!(!config.is_path_allowed("/tmpfile"));
    assert!(!config.is_path_allowed("/tm"));
    assert!(!config.is_path_allowed("/var/tmp"));
}

#[test]
fn traversal_out_of_a_prefix_is_refused() {
    let mut config = SandboxConfig::standard(5);
    assert!(config.allow_path("/tmp"));
    assert!(!config.is_path_allowed("/tmp/../etc/passwd"));
    assert!(!config.is_path_allowed("/tmp/a/../../etc/passwd"));
    assert!(!config.is_path_allowed("/tmp/.."));
    assert!(!config.is_path_allowed("/tmp/../tmpx"));
    assert!(config.is_path_allowed("/tmp/../tmp/x"));
}

#[test]
fn relative_paths_are_refused() {
    let mut config = SandboxConfig::standard(5);
    assert!(config.allow_path("/tmp"));
    assert!(!config.is_path_allowed(""));
    assert!(!config.is_path_allowed("tmp"));
    assert!(!config.is_path_allowed("tmp/test.txt"));
    assert!(!config.is_path_allowed("./tmp"));
}

#[test]
fn relative_prefix_is_not_accepted() {
    let mut config = SandboxConfig::standard(5);
    assert!(!config.allow_path("tmp"));
    assert!(!config.allow_path(""));
    assert!(config.allowed_paths().is_empty());
    assert!(!config.is_path_allowed("/tmp"));
    assert!(!config.is_path_allowed("tmp"));
}

#[test]
fn prefix_is_stored_in_canonical_form() {
    let mut config = SandboxConfig::standard(5);
    assert!(config.allow_path("/var/../tmp//work/."));
    assert_eq!(config.allowed_paths(), vec![b"/tmp/work".to_vec()]);
    assert!(config.is_path_allowed("/tmp/work/file"));
    assert!(!config.is_path_allowed("/var/file"));
    assert!(!config.is_path_allowed("/tmp/file"));
}

#[test]
fn allow_path_is_idempotent() {
    let mut config = SandboxConfig::standard(5);
    assert!(config.allow_path("/tmp"));
    let before = config.allowed_paths();
    assert!(config.allow_path("/tmp"));
    assert!(config.allow_path("/tmp/"));
    assert!(config.allow_path("/etc/../tmp"));
    assert_eq!(config.allowed_paths(), before);
    assert_eq!(config.allowed_paths(), vec![b"/tmp".to_vec()]);
    assert!(config.is_path_allowed("/tmp/test.txt"));
    assert!(!config.is_path_allowed("/etc/passwd"));
}

#[test]
fn allow_path_is_monotonic() {
    let mut config = SandboxConfig::standard(5);
    assert!(config.allow_path("/tmp"));
    assert!(config.allow_path("/home/worker"));
    assert!(config.allow_path("/var/log"));
    assert_eq!(
        config.allowed_paths(),
        vec![b"/tmp".to_vec(), b"/home/worker".to_vec(), b"/var/log".to_vec()]
    );
    assert!(config.is_path_allowed("/tmp/test.txt"));
    assert!(config.is_path_allowed("/home/worker/data"));
    assert!(config.is_path_allowed("/var/log/syslog"));
    assert!(!config.is_path_allowed("/home/other"));
    assert!(!config.is_path_allowed("/var"));
    config.grant(Capability::FileWrite);
    assert!(config.is_path_allowed("/tmp/test.txt"));
    assert!(config.is_path_allowed("/home/worker/data"));
}

#[test]
fn allowing_the_root_allows_every_absolute_path() {
    let mut config = SandboxConfig::privileged(1);
    assert!(config.allow_path("/"));
    assert!(config.is_path_allowed("/"));
    assert!(config.is_path_allowed("/etc/passwd"));
    assert!(config.is_path_allowed("/tmp/../.."));
    assert!(!config.is_path_allowed("etc/passwd"));
}

#[test]
fn allow_takes_a_canonical_path() {
    let mut config = SandboxConfig::standard(5);
    config.allow(CanonicalPath::parse(b"/srv/data").unwrap());
    config.allow(CanonicalPath::parse(b"/srv/./data/").unwrap());
    assert_eq!(config.allowed_paths(), vec![b"/srv/data".to_vec()]);
    assert!(config.covers(&CanonicalPath::parse(b"/srv/data/x").unwrap()));
    assert!(!config.covers(&CanonicalPath::parse(b"/srv").unwrap()));
}

#[test]
fn clone_keeps_pid_capabilities_and_paths() {
    let mut config = SandboxConfig::standard(42);
    config.grant(Capability::NetworkAccess);
    assert!(config.allow_path("/tmp"));
    let copy = config.clone();
    assert_eq!(copy.pid(), 42);
    assert!(copy.has_capability(Capability::NetworkAccess));
    assert!(copy.has_capability(Capability::FileRead));
    assert!(!copy.has_capability(Capability::ProcessSpawn));
    assert_eq!(copy.allowed_paths(), config.allowed_paths());
    assert!(copy.is_path_allowed("/tmp/x"));
}

#[test]
fn clone_is_independent_of_its_source() {
    let config = SandboxConfig::standard(42);
    let mut copy = config.clone();
    copy.grant(Capability::ProcessSpawn);
    assert!(copy.allow_path("/tmp"));
    assert!(!config.has_capability(Capability::ProcessSpawn));
    assert!(!config.is_path_allowed("/tmp/x"));
}
