//! The workspace rustc wrapper that `cargo warm check` installs: what it
//! adds to a workspace crate's compiler invocation, and the exit code it
//! hands back.
use vstd::prelude::*;

use crate::git::opt_view;
use crate::order::views;
use crate::text::str_eq;

verus! {

/// Set (to any value) in the environment of a wrapped rustc invocation.
pub open spec fn marker_name() -> Seq<char> {
    "CARGO_WARM_RUSTC_WRAPPER"@
}

/// Set when workspace crates get the scoped bootstrap opt-in.
pub open spec fn bootstrap_name() -> Seq<char> {
    "CARGO_WARM_USE_BOOTSTRAP"@
}

/// The variable that marks a process as the wrapper.
pub fn marker_env() -> (name: &'static str)
    ensures
        name@ == marker_name(),
{
    "CARGO_WARM_RUSTC_WRAPPER"
}

/// The variable that asks the wrapper for the bootstrap opt-in.
pub fn bootstrap_env() -> (name: &'static str)
    ensures
        name@ == bootstrap_name(),
{
    "CARGO_WARM_USE_BOOTSTRAP"
}

/// The argument after the first `--crate-name`.
pub open spec fn crate_name_in(args: Seq<Seq<char>>) -> Option<Seq<char>>
    decreases args.len(),
{
    if args.len() < 2 {
        None
    } else if args[0] == "--crate-name"@ {
        Some(args[1])
    } else {
        crate_name_in(args.drop_first())
    }
}

/// The crate a rustc invocation compiles (`--crate-name <name>`).
pub fn crate_name(args: &Vec<String>) -> (name: Option<String>)
    ensures
        match crate_name_in(views(args@)) {
            Some(n) => name matches Some(x) && x@ == n,
            None => name is None,
        },
{
    let ghost v = views(args@);
    let mut i: usize = 0;
    assert(v.skip(0) == v);
    while i < args.len() && i + 1 < args.len()
        invariant
            i <= args@.len(),
            v == views(args@),
            crate_name_in(v) == crate_name_in(v.skip(i as int)),
        decreases args@.len() - i,
    {
        assert(v.skip(i as int)[0] == args@[i as int]@);
        assert(v.skip(i as int)[1] == args@[i + 1]@);
        if str_eq(args[i].as_str(), "--crate-name") {
            return Some(String::from_str(args[i + 1].as_str()));
        }
        assert(v.skip(i as int).drop_first() == v.skip(i + 1));
        i = i + 1;
    }
    None
}

/// What the wrapper adds to a compiler invocation.
#[derive(Debug, Clone)]
pub struct WrapperPlan {
    /// `RUSTC_BOOTSTRAP` for this invocation: the crate's own name.
    pub bootstrap_crate: Option<String>,
    /// Arguments appended after the compiler's own.
    pub extra_args: Vec<String>,
}

pub open spec fn remap_arg() -> Seq<char> {
    "-Zremap-cwd-prefix=/cargo-warm/v1/workspace"@
}

/// What a wrapped invocation gets: nothing outside the workspace; inside it,
/// the working directory remapped to a fixed virtual path, and with the
/// bootstrap opt-in also `RUSTC_BOOTSTRAP` scoped to the crate and every
/// unstable source feature forbidden.
pub open spec fn plan_for(workspace_compile: bool, use_bootstrap: bool, args: Seq<Seq<char>>) -> Result<
    (Option<Seq<char>>, Seq<Seq<char>>),
    Seq<char>,
> {
    if !workspace_compile {
        Ok((None, seq![]))
    } else if !use_bootstrap {
        Ok((None, seq![remap_arg()]))
    } else {
        match crate_name_in(args) {
            None => Err("workspace rustc invocation did not include --crate-name"@),
            Some(name) => Ok(
                (Some(name), seq!["-Zallow-features="@, "-F"@, "unstable-features"@, remap_arg()]),
            ),
        }
    }
}

/// Plans a wrapped compiler invocation from the compiler's arguments,
/// whether Cargo compiles a workspace crate, and whether the bootstrap
/// opt-in was asked for.
pub fn wrapper_plan(args: &Vec<String>, workspace_compile: bool, use_bootstrap: bool) -> (r: Result<WrapperPlan, String>)
    ensures
        match plan_for(workspace_compile, use_bootstrap, views(args@)) {
            Ok((b, extra)) => r matches Ok(p) && opt_view(p.bootstrap_crate) == b && views(
                p.extra_args@,
            ) == extra,
            Err(m) => r matches Err(e) && e@ == m,
        },
{
    let mut extra: Vec<String> = Vec::new();
    if !workspace_compile {
        return Ok(WrapperPlan { bootstrap_crate: None, extra_args: extra });
    }
    let mut bootstrap_crate: Option<String> = None;
    if use_bootstrap {
        match crate_name(args) {
            None => {
                return Err(String::from_str("workspace rustc invocation did not include --crate-name"));
            },
            Some(name) => {
                bootstrap_crate = Some(name);
                extra.push(String::from_str("-Zallow-features="));
                extra.push(String::from_str("-F"));
                extra.push(String::from_str("unstable-features"));
            },
        }
    }
    extra.push(String::from_str("-Zremap-cwd-prefix=/cargo-warm/v1/workspace"));
    proof {
        if use_bootstrap {
            assert(views(extra@) == seq!["-Zallow-features="@, "-F"@, "unstable-features"@, remap_arg()]);
        } else {
            assert(views(extra@) == seq![remap_arg()]);
        }
    }
    Ok(WrapperPlan { bootstrap_crate, extra_args: extra })
}

/// The exit code the wrapper hands back: the compiler's own when it is one
/// a process can return (0 to 255), else failure (1).
pub fn exit_code(code: Option<i32>) -> (exit: u8)
    ensures
        exit == match code {
            Some(c) => if 0 <= c <= 255 {
                c as u8
            } else {
                1u8
            },
            None => 1u8,
        },
{
    match code {
        Some(c) => if 0 <= c && c <= 255 {
            c as u8
        } else {
            1
        },
        None => 1,
    }
}

} // verus!
