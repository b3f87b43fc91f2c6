use vstd::prelude::*;

verus! {

/// How the two ambiguous points of the grammar are read: which character
/// (if any) ends an epoch, and whether a trailing letter on a numeric
/// component marks an earlier point (`Some(true)`), a later patch
/// (`Some(false)`), or is refused (`None`).
#[derive(Clone, Copy, Debug, PartialEq, Eq, Structural)]
pub struct ParserConfig {
    pub epoch_delimiter: Option<char>,
    pub pre_release_touchs_digit: Option<bool>,
}

/// Why a raw version string was refused.
#[derive(Clone, Copy, Debug, PartialEq, Eq, Structural)]
pub enum ParseError {
    /// The epoch part is not a decimal number that fits in a `u8`.
    InvalidEpoch,
    /// The character occurs more often than the grammar allows.
    InvalidDelimiterCount(char),
    /// A trailing letter was met while no letter policy is declared, or a
    /// second trailing letter was met.
    AmbiguousLetterPolicy(char),
    /// A field that must be a decimal number is not one, or does not fit.
    NonNumericField,
}

/// The dot-separated numeric core of a version.
#[derive(Debug)]
pub struct MainBlock {
    pub numbers: Vec<u32>,
    pub pre_letter: Option<char>,
    pub post_letter: Option<char>,
}

/// The `-`-delimited pre-release qualifier.
#[derive(Debug)]
pub struct PrereleaseBlock {
    pub step: String,
    pub post_number: Option<u8>,
    pub post_step: Option<String>,
}

/// The `+`-delimited build number.
#[derive(Clone, Copy, Debug)]
pub struct BuildBlock {
    pub number: u8,
}

/// A parsed version.
#[derive(Debug)]
pub struct Version {
    pub epoch: Option<u8>,
    pub main: MainBlock,
    pub pre_release: Option<PrereleaseBlock>,
    pub build: Option<BuildBlock>,
}

/// The mathematical value of a [`MainBlock`].
pub struct MainView {
    pub numbers: Seq<u32>,
    pub pre_letter: Option<char>,
    pub post_letter: Option<char>,
}

/// The mathematical value of a [`PrereleaseBlock`].
pub struct PrereleaseView {
    pub step: Seq<char>,
    pub post_number: Option<u8>,
    pub post_step: Option<Seq<char>>,
}

/// The mathematical value of a [`Version`]; a build block is its number.
pub struct VersionView {
    pub epoch: Option<u8>,
    pub main: MainView,
    pub pre_release: Option<PrereleaseView>,
    pub build: Option<u8>,
}

impl View for MainBlock {
    type V = MainView;

    open spec fn view(&self) -> MainView {
        MainView {
            numbers: self.numbers@,
            pre_letter: self.pre_letter,
            post_letter: self.post_letter,
        }
    }
}

pub open spec fn opt_str_view(s: Option<String>) -> Option<Seq<char>> {
    match s {
        Some(t) => Some(t@),
        None => None,
    }
}

impl View for PrereleaseBlock {
    type V = PrereleaseView;

    open spec fn view(&self) -> PrereleaseView {
        PrereleaseView {
            step: self.step@,
            post_number: self.post_number,
            post_step: opt_str_view(self.post_step),
        }
    }
}

pub open spec fn opt_prerelease_view(p: Option<PrereleaseBlock>) -> Option<PrereleaseView> {
    match p {
        Some(b) => Some(b@),
        None => None,
    }
}

pub open spec fn opt_build_view(b: Option<BuildBlock>) -> Option<u8> {
    match b {
        Some(x) => Some(x.number),
        None => None,
    }
}

impl View for Version {
    type V = VersionView;

    open spec fn view(&self) -> VersionView {
        VersionView {
            epoch: self.epoch,
            main: self.main@,
            pre_release: opt_prerelease_view(self.pre_release),
            build: opt_build_view(self.build),
        }
    }
}

} // verus!
