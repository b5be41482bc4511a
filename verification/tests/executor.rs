use ai_os_kernel::{
    CanonicalPath, Capability, Effect, SandboxConfig, SandboxManager, Syscall, SyscallError,
    SyscallExecutor, SyscallOutput, SystemInfo,
};

fn text(s: &str) -> String {
    s.to_string()
}

fn canon(path: &str) -> CanonicalPath {
    CanonicalPath::parse(path.as_bytes()).unwrap()
}

fn every_syscall() -> Vec<Syscall> {
    vec![
        Syscall::FileExists { path: text("/tmp/test.txt") },
        Syscall::ReadFile { path: text("/tmp/test.txt") },
        Syscall::WriteFile { path: text("/tmp/test.txt"), data: vec![1, 2, 3] },
        Syscall::SpawnProcess { command: text("echo"), args: vec![text("hello")] },
        Syscall::GetSystemInfo,
    ]
}

fn registry_with(config: SandboxConfig) -> SandboxManager {
    let mut manager = SandboxManager::new();
    assert_eq!(manager.create_sandbox(config), Ok(()));
    manager
}

fn standard_with_tmp(pid: u32) -> SandboxManager {
    let mut config = SandboxConfig::standard(pid);
    assert!(config.allow_path("/tmp"));
    registry_with(config)
}

fn host() -> SystemInfo {
    SystemInfo { os: text("linux"), arch: text("x86_64"), family: text("unix") }
}

#[test]
fn required_capability_of_each_syscall() {
    let needed: Vec<Capability> =
        every_syscall().iter().map(|s| s.required_capability()).collect();
    assert_eq!(
        needed,
        vec![
            Capability::FileRead,
            Capability::FileRead,
            Capability::FileWrite,
            Capability::ProcessSpawn,
            Capability::SystemInfoRead,
        ]
    );
}

#[test]
fn path_of_each_syscall() {
    let paths: Vec<Option<String>> =
        every_syscall().iter().map(|s| s.path().map(|p| p.to_string())).collect();
    assert_eq!(
        paths,
        vec![
            Some(text("/tmp/test.txt")),
            Some(text("/tmp/test.txt")),
            Some(text("/tmp/test.txt")),
            None,
            None,
        ]
    );
}

#[test]
fn unregistered_pid_is_denied_every_syscall() {
    let manager = SandboxManager::new();
    let executor = SyscallExecutor::new(&manager);
    for syscall in every_syscall() {
        assert_eq!(
            executor.authorize(7, syscall),
            Err(SyscallError::ProcessNotSandboxed { pid: 7 })
        );
    }
}

#[test]
fn other_pid_is_denied_every_syscall() {
    let mut config = SandboxConfig::privileged(5);
    assert!(config.allow_path("/"));
    let manager = registry_with(config);
    let executor = SyscallExecutor::new(&manager);
    for syscall in every_syscall() {
        assert_eq!(
            executor.authorize(6, syscall),
            Err(SyscallError::ProcessNotSandboxed { pid: 6 })
        );
    }
}

#[test]
fn removed_pid_is_denied_every_syscall() {
    let mut config = SandboxConfig::privileged(5);
    assert!(config.allow_path("/"));
    let mut manager = registry_with(config);
    assert!(manager.remove_sandbox(5));
    let executor = SyscallExecutor::new(&manager);
    for syscall in every_syscall() {
        assert_eq!(
            executor.authorize(5, syscall),
            Err(SyscallError::ProcessNotSandboxed { pid: 5 })
        );
    }
}

#[test]
fn file_exists_under_an_allowed_prefix_is_admitted() {
    let manager = standard_with_tmp(5);
    let executor = SyscallExecutor::new(&manager);
    let effect = executor
        .authorize(5, Syscall::FileExists { path: text("/tmp/test.txt") })
        .unwrap();
    assert_eq!(effect, Effect::FileExists { path: canon("/tmp/test.txt") });
    match &effect {
        Effect::FileExists { path } => assert_eq!(path.to_bytes(), b"/tmp/test.txt".to_vec()),
        other => panic!("unexpected effect {:?}", other),
    }
    assert_eq!(
        SyscallExecutor::complete(&effect, Ok(SyscallOutput::Exists(true))),
        Ok(SyscallOutput::Exists(true))
    );
    assert_eq!(
        SyscallExecutor::complete(&effect, Ok(SyscallOutput::Exists(false))),
        Ok(SyscallOutput::Exists(false))
    );
}

#[test]
fn read_outside_the_allow_list_is_path_denied() {
    let manager = standard_with_tmp(5);
    let executor = SyscallExecutor::new(&manager);
    assert_eq!(
        executor.authorize(5, Syscall::ReadFile { path: text("/etc/passwd") }),
        Err(SyscallError::PathDenied { path: text("/etc/passwd") })
    );
}

#[test]
fn spawn_under_the_standard_profile_is_capability_denied() {
    let manager = standard_with_tmp(5);
    let executor = SyscallExecutor::new(&manager);
    assert_eq!(
        executor.authorize(
            5,
            Syscall::SpawnProcess { command: text("echo"), args: vec![text("hello")] }
        ),
        Err(SyscallError::CapabilityDenied { capability: Capability::ProcessSpawn })
    );
}

#[test]
fn system_info_under_the_standard_profile_succeeds() {
    let manager = standard_with_tmp(5);
    let executor = SyscallExecutor::new(&manager);
    let effect = executor.authorize(5, Syscall::GetSystemInfo).unwrap();
    assert_eq!(effect, Effect::GetSystemInfo);
    assert_eq!(
        SyscallExecutor::complete(&effect, Ok(SyscallOutput::SystemInfo(host()))),
        Ok(SyscallOutput::SystemInfo(host()))
    );
}

#[test]
fn standard_sandbox_without_paths_still_gives_system_info() {
    let manager = registry_with(SandboxConfig::standard(3));
    let executor = SyscallExecutor::new(&manager);
    assert_eq!(executor.authorize(3, Syscall::GetSystemInfo), Ok(Effect::GetSystemInfo));
}

#[test]
fn spawn_is_admitted_once_granted() {
    let mut config = SandboxConfig::standard(5);
    config.grant(Capability::ProcessSpawn);
    let manager = registry_with(config);
    let executor = SyscallExecutor::new(&manager);
    let effect = executor
        .authorize(
            5,
            Syscall::SpawnProcess { command: text("echo"), args: vec![text("hello")] },
        )
        .unwrap();
    assert_eq!(
        effect,
        Effect::SpawnProcess { command: text("echo"), args: vec![text("hello")] }
    );
    assert_eq!(
        SyscallExecutor::complete(&effect, Ok(SyscallOutput::Spawned { child: 4242 })),
        Ok(SyscallOutput::Spawned { child: 4242 })
    );
}

#[test]
fn strict_sandbox_is_denied_every_syscall_for_the_capability() {
    let mut config = SandboxConfig::strict(5);
    assert!(config.allow_path("/"));
    let manager = registry_with(config);
    let executor = SyscallExecutor::new(&manager);
    for syscall in every_syscall() {
        let capability = syscall.required_capability();
        assert_eq!(
            executor.authorize(5, syscall),
            Err(SyscallError::CapabilityDenied { capability })
        );
    }
}

#[test]
fn privileged_sandbox_with_root_is_admitted_every_syscall() {
    let mut config = SandboxConfig::privileged(5);
    assert!(config.allow_path("/"));
    let manager = registry_with(config);
    let executor = SyscallExecutor::new(&manager);
    let effects: Vec<Effect> =
        every_syscall().into_iter().map(|s| executor.authorize(5, s).unwrap()).collect();
    assert_eq!(
        effects,
        vec![
            Effect::FileExists { path: canon("/tmp/test.txt") },
            Effect::ReadFile { path: canon("/tmp/test.txt") },
            Effect::WriteFile { path: canon("/tmp/test.txt"), data: vec![1, 2, 3] },
            Effect::SpawnProcess { command: text("echo"), args: vec![text("hello")] },
            Effect::GetSystemInfo,
        ]
    );
}

#[test]
fn capability_check_precedes_path_check() {
    let manager = standard_with_tmp(5);
    let executor = SyscallExecutor::new(&manager);
    assert_eq!(
        executor.authorize(
            5,
            Syscall::WriteFile { path: text("/tmp/allowed.txt"), data: vec![0] }
        ),
        Err(SyscallError::CapabilityDenied { capability: Capability::FileWrite })
    );
    assert_eq!(
        executor.authorize(
            5,
            Syscall::WriteFile { path: text("/etc/passwd"), data: vec![0] }
        ),
        Err(SyscallError::CapabilityDenied { capability: Capability::FileWrite })
    );
    assert_eq!(
        executor.authorize(5, Syscall::WriteFile { path: text("relative"), data: vec![0] }),
        Err(SyscallError::CapabilityDenied { capability: Capability::FileWrite })
    );
}

#[test]
fn write_is_admitted_with_capability_and_path() {
    let mut config = SandboxConfig::standard(5);
    config.grant(Capability::FileWrite);
    assert!(config.allow_path("/tmp"));
    let manager = registry_with(config);
    let executor = SyscallExecutor::new(&manager);
    let effect = executor
        .authorize(
            5,
            Syscall::WriteFile { path: text("/tmp/out/../log.txt"), data: vec![104, 105] },
        )
        .unwrap();
    assert_eq!(
        effect,
        Effect::WriteFile { path: canon("/tmp/log.txt"), data: vec![104, 105] }
    );
    assert_eq!(
        SyscallExecutor::complete(&effect, Ok(SyscallOutput::Written)),
        Ok(SyscallOutput::Written)
    );
    assert_eq!(
        executor.authorize(5, Syscall::WriteFile { path: text("/etc/motd"), data: vec![] }),
        Err(SyscallError::PathDenied { path: text("/etc/motd") })
    );
}

#[test]
fn traversal_out_of_the_allow_list_is_path_denied() {
    let manager = standard_with_tmp(5);
    let executor = SyscallExecutor::new(&manager);
    for path in [
        "/tmp/../etc/passwd",
        "/tmp/./../etc/passwd",
        "/tmp//..//etc/passwd",
        "/tmp/a/b/../../../etc/passwd",
        "/tmp/..",
        "/tmpx/file",
    ] {
        assert_eq!(
            executor.authorize(5, Syscall::ReadFile { path: text(path) }),
            Err(SyscallError::PathDenied { path: text(path) })
        );
        assert_eq!(
            executor.authorize(5, Syscall::FileExists { path: text(path) }),
            Err(SyscallError::PathDenied { path: text(path) })
        );
    }
}

#[test]
fn relative_path_is_path_denied() {
    let manager = standard_with_tmp(5);
    let executor = SyscallExecutor::new(&manager);
    for path in ["", "tmp/test.txt", "./tmp/test.txt", "../tmp/test.txt"] {
        assert_eq!(
            executor.authorize(5, Syscall::ReadFile { path: text(path) }),
            Err(SyscallError::PathDenied { path: text(path) })
        );
    }
}

#[test]
fn admitted_effect_carries_the_canonical_path() {
    let manager = standard_with_tmp(5);
    let executor = SyscallExecutor::new(&manager);
    for path in ["/tmp/x", "/tmp//x", "/tmp/./x", "/tmp/y/../x", "/etc/../tmp/x/"] {
        let effect = executor.authorize(5, Syscall::ReadFile { path: text(path) }).unwrap();
        assert_eq!(effect, Effect::ReadFile { path: canon("/tmp/x") });
        match effect {
            Effect::ReadFile { path } => assert_eq!(path.to_bytes(), b"/tmp/x".to_vec()),
            other => panic!("unexpected effect {:?}", other),
        }
    }
}

#[test]
fn read_returns_the_content() {
    let manager = standard_with_tmp(5);
    let executor = SyscallExecutor::new(&manager);
    let effect = executor.authorize(5, Syscall::ReadFile { path: text("/tmp/a") }).unwrap();
    assert_eq!(
        SyscallExecutor::complete(&effect, Ok(SyscallOutput::Contents(vec![1, 2, 3]))),
        Ok(SyscallOutput::Contents(vec![1, 2, 3]))
    );
    assert_eq!(
        SyscallExecutor::complete(&effect, Ok(SyscallOutput::Contents(vec![]))),
        Ok(SyscallOutput::Contents(vec![]))
    );
}

#[test]
fn failed_file_operation_is_an_io_error() {
    let file = canon("/tmp/missing");
    for effect in [
        Effect::FileExists { path: file.clone() },
        Effect::ReadFile { path: file.clone() },
        Effect::WriteFile { path: file.clone(), data: vec![9] },
        Effect::GetSystemInfo,
    ] {
        assert_eq!(
            SyscallExecutor::complete(&effect, Err(text("No such file or directory"))),
            Err(SyscallError::IoError { message: text("No such file or directory") })
        );
    }
}

#[test]
fn failed_spawn_is_a_spawn_failure() {
    let effect = Effect::SpawnProcess { command: text("nope"), args: vec![] };
    assert_eq!(
        SyscallExecutor::complete(&effect, Err(text("command not found"))),
        Err(SyscallError::SpawnFailure { message: text("command not found") })
    );
}

#[test]
fn output_of_another_kind_is_reported_as_a_failure() {
    let read = Effect::ReadFile { path: canon("/tmp/a") };
    assert_eq!(
        SyscallExecutor::complete(&read, Ok(SyscallOutput::Exists(true))),
        Err(SyscallError::IoError {
            message: text("the output does not answer the request")
        })
    );
    let spawn = Effect::SpawnProcess { command: text("echo"), args: vec![] };
    assert_eq!(
        SyscallExecutor::complete(&spawn, Ok(SyscallOutput::Written)),
        Err(SyscallError::SpawnFailure {
            message: text("the output does not answer the request")
        })
    );
    assert_eq!(
        SyscallExecutor::complete(&Effect::GetSystemInfo, Ok(SyscallOutput::Spawned { child: 1 })),
        Err(SyscallError::IoError {
            message: text("the output does not answer the request")
        })
    );
}

#[test]
fn each_effect_is_answered_by_its_own_kind_of_output_only() {
    let file = canon("/tmp/a");
    let effects = vec![
        Effect::FileExists { path: file.clone() },
        Effect::ReadFile { path: file.clone() },
        Effect::WriteFile { path: file.clone(), data: vec![] },
        Effect::SpawnProcess { command: text("echo"), args: vec![] },
        Effect::GetSystemInfo,
    ];
    let outputs = vec![
        SyscallOutput::Exists(false),
        SyscallOutput::Contents(vec![7]),
        SyscallOutput::Written,
        SyscallOutput::Spawned { child: 1 },
        SyscallOutput::SystemInfo(host()),
    ];
    for (i, effect) in effects.iter().enumerate() {
        for (j, output) in outputs.iter().enumerate() {
            assert_eq!(effect.answered_by(output), i == j);
        }
    }
}

#[test]
fn denials_and_failures_are_told_apart() {
    assert!(SyscallError::ProcessNotSandboxed { pid: 1 }.is_denial());
    assert!(SyscallError::CapabilityDenied { capability: Capability::FileRead }.is_denial());
    assert!(SyscallError::PathDenied { path: text("/x") }.is_denial());
    assert!(!SyscallError::IoError { message: text("x") }.is_denial());
    assert!(!SyscallError::SpawnFailure { message: text("x") }.is_denial());
}

#[test]
fn denial_is_deterministic() {
    let manager = standard_with_tmp(5);
    let executor = SyscallExecutor::new(&manager);
    for _ in 0..5 {
        assert_eq!(
            executor.authorize(5, Syscall::ReadFile { path: text("/etc/passwd") }),
            Err(SyscallError::PathDenied { path: text("/etc/passwd") })
        );
    }
    assert_eq!(manager.len(), 1);
    assert!(!manager.get_sandbox(5).unwrap().is_path_allowed("/etc/passwd"));
}

#[test]
fn each_pid_is_decided_by_its_own_policy() {
    let mut manager = SandboxManager::new();
    let mut reader = SandboxConfig::standard(1);
    assert!(reader.allow_path("/data/one"));
    assert_eq!(manager.create_sandbox(reader), Ok(()));
    let mut writer = SandboxConfig::privileged(2);
    assert!(writer.allow_path("/data/two"));
    assert_eq!(manager.create_sandbox(writer), Ok(()));
    let executor = SyscallExecutor::new(&manager);

    assert!(executor.authorize(1, Syscall::ReadFile { path: text("/data/one/f") }).is_ok());
    assert_eq!(
        executor.authorize(1, Syscall::ReadFile { path: text("/data/two/f") }),
        Err(SyscallError::PathDenied { path: text("/data/two/f") })
    );
    assert!(executor.authorize(2, Syscall::ReadFile { path: text("/data/two/f") }).is_ok());
    assert_eq!(
        executor.authorize(2, Syscall::ReadFile { path: text("/data/one/f") }),
        Err(SyscallError::PathDenied { path: text("/data/one/f") })
    );
    assert_eq!(
        executor.authorize(1, Syscall::SpawnProcess { command: text("ls"), args: vec![] }),
        Err(SyscallError::CapabilityDenied { capability: Capability::ProcessSpawn })
    );
    assert!(executor
        .authorize(2, Syscall::SpawnProcess { command: text("ls"), args: vec![] })
        .is_ok());
}
