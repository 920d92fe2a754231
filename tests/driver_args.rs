use vixc::driver::{Clang, TargetOS};

#[test]
fn target_names() {
    assert_eq!(TargetOS::from_string("Windows"), Some(TargetOS::Windows));
    assert_eq!(TargetOS::from_string("WIN"), Some(TargetOS::Windows));
    assert_eq!(TargetOS::from_string("darwin"), Some(TargetOS::MacOS));
    assert_eq!(TargetOS::from_string("Linux"), Some(TargetOS::Linux));
    assert_eq!(TargetOS::from_string("freebsd"), Some(TargetOS::FreeBSD));
    assert_eq!(TargetOS::from_string("plan9"), None);
    assert_eq!(TargetOS::from_lowercase_name("mac"), Some(TargetOS::MacOS));
}

#[test]
fn extensions() {
    assert_eq!(TargetOS::Windows.executable_extension(), ".exe");
    assert_eq!(TargetOS::Linux.executable_extension(), "");
    assert_eq!(TargetOS::Windows.object_extension(), ".obj");
    assert_eq!(TargetOS::MacOS.object_extension(), ".o");
    assert_eq!(TargetOS::Linux.executable_prefix(), "./");
    assert_eq!(TargetOS::Windows.executable_prefix(), "");
    assert_eq!(TargetOS::MacOS.display_name(), "macOS");
    assert_eq!(TargetOS::Unknown.display_name(), "Unknown");
}

#[test]
fn platform_arguments() {
    let mut args = Vec::new();
    Clang::add_platform_specific_args(&mut args, TargetOS::Linux);
    assert_eq!(args, vec!["-lpthread", "-ldl", "-lm"]);
    let mut mac = Vec::new();
    Clang::add_platform_specific_args(&mut mac, TargetOS::MacOS);
    assert_eq!(mac, vec!["-framework", "CoreFoundation", "-framework", "Security", "-lpthread", "-lm"]);
    let mut none = Vec::new();
    Clang::add_platform_specific_args(&mut none, TargetOS::Unknown);
    assert!(none.is_empty());
    let mut win = Vec::new();
    Clang::add_platform_specific_args(&mut win, TargetOS::Windows);
    assert_eq!(win[0], "-Xlinker");
    assert_eq!(win[1], "/SUBSYSTEM:CONSOLE");
    assert_eq!(win.len(), 14);
}

#[test]
fn compile_and_link_arguments() {
    assert_eq!(
        Clang::compile_args("output.c", "out.o", TargetOS::Linux),
        vec!["-c", "output.c", "-o", "out.o", "-O2", "-std=c17", "-Wall", "-Wextra"]
    );
    let w = Clang::compile_args("output.c", "out.obj", TargetOS::Windows);
    assert_eq!(w.last().unwrap(), "-D_CRT_SECURE_NO_WARNINGS");
    let link = Clang::link_args(None, &vec!["a.o".to_string()], "prog", &vec!["z".to_string()], TargetOS::FreeBSD);
    assert_eq!(link, vec!["a.o", "-o", "prog", "-lpthread", "-lm", "-lz"]);
    let build = Clang::build_args(Some("cfg_stub.obj"), "output.c", "prog.exe", &vec![], TargetOS::Windows);
    assert_eq!(build[0], "cfg_stub.obj");
    assert_eq!(build[1], "output.c");
    assert_eq!(Clang::executable_path("prog", TargetOS::Windows), "prog.exe");
    assert_eq!(Clang::run_path("prog", TargetOS::Linux), "./prog");
    assert!(Clang::get_msvc_env().is_empty());
    assert!(Clang::cfg_stub_source().contains("__guard_eh_cont_count"));
}
