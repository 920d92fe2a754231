use vstd::prelude::*;
use crate::diagnostics::{join2, join3, text};

verus! {

/// The operating system the executable is built for.
#[derive(Debug, Clone, Copy, PartialEq, Eq, Structural)]
pub enum TargetOS {
    Windows,
    Linux,
    MacOS,
    FreeBSD,
    Unknown,
}

/// What `str::to_lowercase` makes of a text.
pub uninterp spec fn lowercase_of(s: Seq<char>) -> Seq<char>;

/// Relies on `str::to_lowercase`: the result depends on the text alone.
#[verifier::external_body]
fn lowercase(s: &str) -> (r: String)
    ensures
        r@ == lowercase_of(s@),
{
    s.to_lowercase()
}

/// The target a lower-case name stands for.
pub open spec fn target_named(name: Seq<char>) -> Option<TargetOS> {
    if name == "windows"@ || name == "win"@ {
        Some(TargetOS::Windows)
    } else if name == "linux"@ {
        Some(TargetOS::Linux)
    } else if name == "macos"@ || name == "mac"@ || name == "darwin"@ {
        Some(TargetOS::MacOS)
    } else if name == "freebsd"@ {
        Some(TargetOS::FreeBSD)
    } else {
        None
    }
}

/// The linker arguments each target needs.
pub open spec fn platform_args(t: TargetOS) -> Seq<Seq<char>> {
    match t {
        TargetOS::Windows => seq![
            "-Xlinker"@,
            "/SUBSYSTEM:CONSOLE"@,
            "-lmsvcrt"@,
            "-lvcruntime"@,
            "-lucrt"@,
            "-luser32"@,
            "-lgdi32"@,
            "-lkernel32"@,
            "-ladvapi32"@,
            "-lshell32"@,
            "-lole32"@,
            "-loleaut32"@,
            "-luuid"@,
            "-lws2_32"@,
        ],
        TargetOS::Linux => seq!["-lpthread"@, "-ldl"@, "-lm"@],
        TargetOS::MacOS => seq![
            "-framework"@,
            "CoreFoundation"@,
            "-framework"@,
            "Security"@,
            "-lpthread"@,
            "-lm"@,
        ],
        TargetOS::FreeBSD => seq!["-lpthread"@, "-lm"@],
        TargetOS::Unknown => Seq::empty(),
    }
}

/// The views of a list of arguments.
pub open spec fn arg_views(v: Seq<String>) -> Seq<Seq<char>> {
    v.map_values(|s: String| s@)
}

fn push_arg(args: &mut Vec<String>, a: &str)
    ensures
        arg_views(final(args)@) == arg_views(old(args)@).push(a@),
        final(args)@.len() == old(args)@.len() + 1,
{
    args.push(String::from_str(a));
    proof {
        assert(arg_views(args@) =~= arg_views(old(args)@).push(a@));
    }
}

impl TargetOS {
    pub fn executable_extension(&self) -> (r: &'static str)
        ensures
            r@ == (if *self == TargetOS::Windows {
                ".exe"@
            } else {
                ""@
            }),
    {
        match self {
            TargetOS::Windows => ".exe",
            _ => "",
        }
    }

    pub fn object_extension(&self) -> (r: &'static str)
        ensures
            r@ == (if *self == TargetOS::Windows {
                ".obj"@
            } else {
                ".o"@
            }),
    {
        match self {
            TargetOS::Windows => ".obj",
            _ => ".o",
        }
    }

    /// What a path to an executable in the working directory starts with.
    pub fn executable_prefix(&self) -> (r: &'static str)
        ensures
            r@ == (if *self == TargetOS::Windows {
                ""@
            } else {
                "./"@
            }),
    {
        match self {
            TargetOS::Windows => "",
            _ => "./",
        }
    }

    pub fn display_name(&self) -> (r: &'static str)
        ensures
            *self == TargetOS::Windows ==> r@ == "Windows"@,
            *self == TargetOS::Linux ==> r@ == "Linux"@,
            *self == TargetOS::MacOS ==> r@ == "macOS"@,
            *self == TargetOS::FreeBSD ==> r@ == "FreeBSD"@,
            *self == TargetOS::Unknown ==> r@ == "Unknown"@,
    {
        match self {
            TargetOS::Windows => "Windows",
            TargetOS::Linux => "Linux",
            TargetOS::MacOS => "macOS",
            TargetOS::FreeBSD => "FreeBSD",
            TargetOS::Unknown => "Unknown",
        }
    }

    /// The target that a name already in lower case stands for.
    pub fn from_lowercase_name(name: &str) -> (r: Option<Self>)
        ensures
            r == target_named(name@),
    {
        let n = String::from_str(name);
        if n == String::from_str("windows") || n == String::from_str("win") {
            Some(TargetOS::Windows)
        } else if n == String::from_str("linux") {
            Some(TargetOS::Linux)
        } else if n == String::from_str("macos") || n == String::from_str("mac") || n == String::from_str("darwin") {
            Some(TargetOS::MacOS)
        } else if n == String::from_str("freebsd") {
            Some(TargetOS::FreeBSD)
        } else {
            None
        }
    }

    /// The target a name stands for, in any letter case.
    pub fn from_string(s: &str) -> (r: Option<Self>)
        ensures
            r == target_named(lowercase_of(s@)),
    {
        let lower = lowercase(s);
        Self::from_lowercase_name(lower.as_str())
    }
}

/// The C compiler driver: builds the argument lists of its invocations.
pub struct Clang;

impl Clang {
    /// Appends the linker arguments that `target_os` needs.
    pub fn add_platform_specific_args(args: &mut Vec<String>, target_os: TargetOS)
        ensures
            arg_views(final(args)@) == arg_views(old(args)@) + platform_args(target_os),
            final(args)@.len() == old(args)@.len() + platform_args(target_os).len(),
    {
        let ghost start = arg_views(args@);
        match target_os {
            TargetOS::Windows => {
                push_arg(args, "-Xlinker");
                push_arg(args, "/SUBSYSTEM:CONSOLE");
                push_arg(args, "-lmsvcrt");
                push_arg(args, "-lvcruntime");
                push_arg(args, "-lucrt");
                push_arg(args, "-luser32");
                push_arg(args, "-lgdi32");
                push_arg(args, "-lkernel32");
                push_arg(args, "-ladvapi32");
                push_arg(args, "-lshell32");
                push_arg(args, "-lole32");
                push_arg(args, "-loleaut32");
                push_arg(args, "-luuid");
                push_arg(args, "-lws2_32");
            },
            TargetOS::Linux => {
                push_arg(args, "-lpthread");
                push_arg(args, "-ldl");
                push_arg(args, "-lm");
            },
            TargetOS::MacOS => {
                push_arg(args, "-framework");
                push_arg(args, "CoreFoundation");
                push_arg(args, "-framework");
                push_arg(args, "Security");
                push_arg(args, "-lpthread");
                push_arg(args, "-lm");
            },
            TargetOS::FreeBSD => {
                push_arg(args, "-lpthread");
                push_arg(args, "-lm");
            },
            TargetOS::Unknown => {},
        }
        proof {
            assert(arg_views(args@) =~= start + platform_args(target_os));
            assert(arg_views(args@).len() == args@.len());
            assert(start.len() == old(args)@.len());
        }
    }

    /// Environment variables for the Microsoft toolchain; none are needed.
    pub fn get_msvc_env() -> (r: Vec<(String, String)>)
        ensures
            r@.len() == 0,
    {
        Vec::new()
    }

    /// The source of the stub that defines the two control-flow-guard
    /// symbols the Windows linker expects.
    pub fn cfg_stub_source() -> (r: &'static str)
        ensures
            r@ == "\nunsigned int __guard_eh_cont_count = 0;\nvoid* __guard_eh_cont_table = 0;\n"@,
    {
        "\nunsigned int __guard_eh_cont_count = 0;\nvoid* __guard_eh_cont_table = 0;\n"
    }

    /// Arguments that compile `c_path` into the object `obj_path`.
    pub fn compile_args(c_path: &str, obj_path: &str, target_os: TargetOS) -> (r: Vec<String>)
        ensures
            arg_views(r@) == seq!["-c"@, c_path@, "-o"@, obj_path@, "-O2"@, "-std=c17"@, "-Wall"@, "-Wextra"@]
                + (if target_os == TargetOS::Windows {
                    seq!["-D_CRT_SECURE_NO_WARNINGS"@]
                } else {
                    Seq::empty()
                }),
    {
        let mut args: Vec<String> = Vec::new();
        push_arg(&mut args, "-c");
        push_arg(&mut args, c_path);
        push_arg(&mut args, "-o");
        push_arg(&mut args, obj_path);
        push_arg(&mut args, "-O2");
        push_arg(&mut args, "-std=c17");
        push_arg(&mut args, "-Wall");
        push_arg(&mut args, "-Wextra");
        let ghost base = arg_views(args@);
        if target_os == TargetOS::Windows {
            push_arg(&mut args, "-D_CRT_SECURE_NO_WARNINGS");
        }
        proof {
            assert(arg_views(args@) =~= seq!["-c"@, c_path@, "-o"@, obj_path@, "-O2"@, "-std=c17"@, "-Wall"@, "-Wextra"@]
                + (if target_os == TargetOS::Windows {
                    seq!["-D_CRT_SECURE_NO_WARNINGS"@]
                } else {
                    Seq::empty()
                }));
        }
        args
    }

    /// Arguments that link `objects` (after the stub object, when there is
    /// one) into the executable `exe_path`, with the platform's libraries and
    /// then `-l<lib>` for each extra library.
    pub fn link_args(stub: Option<&str>, objects: &Vec<String>, exe_path: &str, extra_libs: &Vec<String>, target_os: TargetOS) -> (r: Vec<String>)
        ensures
            r@.len() == (if stub is Some { 1int } else { 0int }) + objects@.len() + 2 + platform_args(target_os).len() + extra_libs@.len(),
    {
        let mut args: Vec<String> = Vec::new();
        if let Some(s) = stub {
            push_arg(&mut args, s);
        }
        let mut i: usize = 0;
        while i < objects.len()
            invariant
                i <= objects.len(),
                args@.len() == (if stub is Some { 1int } else { 0int }) + i,
            decreases objects.len() - i,
        {
            args.push(objects[i].clone());
            i = i + 1;
        }
        push_arg(&mut args, "-o");
        push_arg(&mut args, exe_path);
        Self::add_platform_specific_args(&mut args, target_os);
        let ghost base = args@.len();
        let mut k: usize = 0;
        while k < extra_libs.len()
            invariant
                k <= extra_libs.len(),
                args@.len() == base + k,
            decreases extra_libs.len() - k,
        {
            args.push(join2("-l", extra_libs[k].as_str()));
            k = k + 1;
        }
        args
    }

    /// Arguments that compile and link `c_path` into `exe_path` in one step.
    pub fn build_args(stub: Option<&str>, c_path: &str, exe_path: &str, extra_libs: &Vec<String>, target_os: TargetOS) -> (r: Vec<String>)
        ensures
            r@.len() == (if stub is Some { 1int } else { 0int }) + 7 + (if target_os == TargetOS::Windows { 1int } else { 0int })
                + platform_args(target_os).len() + extra_libs@.len(),
    {
        let mut args: Vec<String> = Vec::new();
        if let Some(s) = stub {
            push_arg(&mut args, s);
        }
        push_arg(&mut args, c_path);
        push_arg(&mut args, "-o");
        push_arg(&mut args, exe_path);
        push_arg(&mut args, "-O2");
        push_arg(&mut args, "-std=c17");
        push_arg(&mut args, "-Wall");
        push_arg(&mut args, "-Wextra");
        if target_os == TargetOS::Windows {
            push_arg(&mut args, "-D_CRT_SECURE_NO_WARNINGS");
        }
        Self::add_platform_specific_args(&mut args, target_os);
        let ghost base = args@.len();
        let mut k: usize = 0;
        while k < extra_libs.len()
            invariant
                k <= extra_libs.len(),
                args@.len() == base + k,
            decreases extra_libs.len() - k,
        {
            args.push(join2("-l", extra_libs[k].as_str()));
            k = k + 1;
        }
        args
    }

    /// The path of the executable `name` for `target_os`.
    pub fn executable_path(name: &str, target_os: TargetOS) -> (r: String)
        ensures
            r@ == name@ + (if target_os == TargetOS::Windows {
                ".exe"@
            } else {
                ""@
            }),
    {
        join2(name, target_os.executable_extension())
    }

    /// The command that runs the executable `name` from the working directory.
    pub fn run_path(name: &str, target_os: TargetOS) -> (r: String)
        ensures
            r@ == (if target_os == TargetOS::Windows {
                ""@
            } else {
                "./"@
            }) + name@ + (if target_os == TargetOS::Windows {
                ".exe"@
            } else {
                ""@
            }),
    {
        join3(target_os.executable_prefix(), name, target_os.executable_extension())
    }
}

} // verus!
