pub mod cache;
pub mod cli;
pub mod compiler;
pub mod config;
pub mod config_laws;
pub mod doctor;
pub mod fingerprint;
pub mod freshness;
pub mod git;
pub mod index;
pub mod json;
pub mod numbers;
pub mod order;
pub mod paths;
pub mod prime;
pub mod project;
pub mod report;
pub mod rustc_wrapper;
pub mod seed;
pub mod text;

use vstd::prelude::*;

verus! {

/// The argument list that Cargo hands a subcommand binary: `cargo-warm warm ...`
/// becomes `cargo-warm ...`, so both invocation styles share one parser.
pub open spec fn spec_normalize_args(args: Seq<String>) -> Seq<String> {
    if args.len() > 1 && args[1]@ == "warm"@ {
        args.remove(1)
    } else {
        args
    }
}

pub fn normalize_args(args: Vec<String>) -> (normalized: Vec<String>)
    ensures
        normalized@ == spec_normalize_args(args@),
{
    let mut args = args;
    if args.len() > 1 && text::str_eq(args[1].as_str(), "warm") {
        args.remove(1);
    }
    args
}

} // verus!
