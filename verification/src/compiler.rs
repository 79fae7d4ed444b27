//! What `rustc -vV` says about the toolchain: its release, its channel, and
//! whether it can relocate incremental state.
use vstd::prelude::*;

use crate::numbers::{parse_unsigned, parse_unsigned_of};
use crate::text::{
    after_char, after_char_of, before_char, before_char_of, chars_of, contains, contains_str,
    lines, lines_of, strip_prefix, strip_prefix_of, string_of, texts, trim, trim_of,
};

verus! {

/// The first Rust minor release whose incremental state is relocatable.
pub const RELOCATABLE_INCREMENTAL_MIN_MINOR: u32 = 98;

#[derive(Debug, Clone, Copy, PartialEq, Eq, Structural)]
pub enum RustcChannel {
    Stable,
    Beta,
    Nightly,
    Dev,
}

#[derive(Debug, Clone)]
pub struct RustcInfo {
    pub release: String,
    pub channel: RustcChannel,
    pub relocatable_incremental_supported: bool,
}

/// Why `rustc -vV` output could not be read.
#[derive(Debug, Clone)]
pub enum RustcVersionError {
    /// No line starts with `release: `.
    MissingRelease,
    /// The release (given) has no `major.minor` prefix of `u32` numbers.
    UnparsableRelease(String),
}

impl RustcInfo {
    /// Nightly and dev compilers take unstable flags without an opt-in.
    pub fn accepts_unstable_flags(&self) -> (accepts: bool)
        ensures
            accepts == (self.channel == RustcChannel::Nightly || self.channel
                == RustcChannel::Dev),
    {
        match self.channel {
            RustcChannel::Nightly | RustcChannel::Dev => true,
            _ => false,
        }
    }
}

/// The text after `release: ` on the first line that starts with it.
pub open spec fn release_from_lines(ls: Seq<Seq<char>>) -> Option<Seq<char>>
    decreases ls.len(),
{
    if ls.len() == 0 {
        None
    } else {
        match strip_prefix(ls[0], "release: "@) {
            Some(rest) => Some(rest),
            None => release_from_lines(ls.drop_first()),
        }
    }
}

/// The trimmed release that `rustc -vV` output reports, if any.
pub open spec fn reported_release(text: Seq<char>) -> Option<Seq<char>> {
    match release_from_lines(lines(text)) {
        Some(rest) => Some(trim(rest)),
        None => None,
    }
}

pub open spec fn channel_of(release: Seq<char>) -> RustcChannel {
    if contains(release, "nightly"@) {
        RustcChannel::Nightly
    } else if contains(release, "beta"@) {
        RustcChannel::Beta
    } else if contains(release, "dev"@) {
        RustcChannel::Dev
    } else {
        RustcChannel::Stable
    }
}

/// The numeric part of a release: everything before the first `-`.
pub open spec fn version_of(release: Seq<char>) -> Seq<char> {
    before_char(release, '-')
}

pub open spec fn major_of(release: Seq<char>) -> Option<nat> {
    parse_unsigned(before_char(version_of(release), '.'), u32::MAX as nat)
}

pub open spec fn minor_of(release: Seq<char>) -> Option<nat> {
    match after_char(version_of(release), '.') {
        Some(rest) => parse_unsigned(before_char(rest, '.'), u32::MAX as nat),
        None => None,
    }
}

/// Rust 1.98 and every later release relocate incremental state.
pub open spec fn relocation_supported(major: nat, minor: nat) -> bool {
    major > 1 || (major == 1 && minor >= RELOCATABLE_INCREMENTAL_MIN_MINOR)
}

/// What `parse_rustc_verbose_version` answers for `text`: the release, its
/// channel and its relocation support, or `None` for an error.
pub open spec fn parsed_rustc(text: Seq<char>) -> Option<(Seq<char>, RustcChannel, bool)> {
    match reported_release(text) {
        Some(release) => match (major_of(release), minor_of(release)) {
            (Some(major), Some(minor)) => Some(
                (release, channel_of(release), relocation_supported(major, minor)),
            ),
            _ => None,
        },
        None => None,
    }
}

impl RustcVersionError {
    pub open spec fn spec_message(&self) -> Seq<char> {
        match self {
            RustcVersionError::MissingRelease => "rustc -vV did not report a release"@,
            RustcVersionError::UnparsableRelease(release) => "could not parse rustc release "@
                + release@,
        }
    }

    /// The message the command line shows for this error.
    pub fn message(&self) -> (text: String)
        ensures
            text@ == self.spec_message(),
    {
        match self {
            RustcVersionError::MissingRelease => {
                String::from_str("rustc -vV did not report a release")
            },
            RustcVersionError::UnparsableRelease(release) => {
                let mut text = String::from_str("could not parse rustc release ");
                text.append(release.as_str());
                text
            },
        }
    }
}

fn release_line(ls: &Vec<Vec<char>>) -> (r: Option<Vec<char>>)
    ensures
        r matches Some(v) ==> release_from_lines(texts(ls@)) == Some(v@),
        r is None ==> release_from_lines(texts(ls@)) is None,
{
    let prefix = chars_of("release: ");
    let mut i: usize = 0;
    assert(texts(ls@).skip(0) == texts(ls@));
    while i < ls.len()
        invariant
            i <= ls.len(),
            prefix@ == "release: "@,
            release_from_lines(texts(ls@)) == release_from_lines(texts(ls@).skip(i as int)),
        decreases ls.len() - i,
    {
        let ghost rest = texts(ls@).skip(i as int);
        assert(rest[0] == ls@[i as int]@);
        assert(rest.drop_first() == texts(ls@).skip(i + 1));
        if let Some(v) = strip_prefix_of(&ls[i], &prefix) {
            return Some(v);
        }
        i = i + 1;
    }
    None
}

/// Reads the release, channel and relocation support from `rustc -vV` output.
pub fn parse_rustc_verbose_version(text: &str) -> (r: Result<RustcInfo, RustcVersionError>)
    ensures
        match parsed_rustc(text@) {
            Some((release, channel, supported)) => r matches Ok(info) && info.release@ == release
                && info.channel == channel && info.relocatable_incremental_supported == supported,
            None => match reported_release(text@) {
                None => r matches Err(RustcVersionError::MissingRelease),
                Some(release) => r matches Err(RustcVersionError::UnparsableRelease(s)) && s@
                    == release,
            },
        },
{
    let chars = chars_of(text);
    let ls = lines_of(&chars);
    let rest = match release_line(&ls) {
        Some(rest) => rest,
        None => return Err(RustcVersionError::MissingRelease),
    };
    let release = trim_of(&rest);
    let channel = if contains_str(&release, &chars_of("nightly")) {
        RustcChannel::Nightly
    } else if contains_str(&release, &chars_of("beta")) {
        RustcChannel::Beta
    } else if contains_str(&release, &chars_of("dev")) {
        RustcChannel::Dev
    } else {
        RustcChannel::Stable
    };
    let version = before_char_of(&release, '-');
    let major = match parse_unsigned_of(&before_char_of(&version, '.'), u32::MAX as u64) {
        Some(major) => major,
        None => return Err(RustcVersionError::UnparsableRelease(string_of(&release))),
    };
    let minor = match after_char_of(&version, '.') {
        Some(rest) => match parse_unsigned_of(&before_char_of(&rest, '.'), u32::MAX as u64) {
            Some(minor) => minor,
            None => return Err(RustcVersionError::UnparsableRelease(string_of(&release))),
        },
        None => return Err(RustcVersionError::UnparsableRelease(string_of(&release))),
    };
    let supported = major > 1 || (major == 1 && minor >= RELOCATABLE_INCREMENTAL_MIN_MINOR as u64);
    Ok(RustcInfo { release: string_of(&release), channel, relocatable_incremental_supported: supported })
}

} // verus!
