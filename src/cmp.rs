use std::cmp::Ordering;
use vstd::prelude::*;

use crate::structs::{BuildBlock, MainBlock, MainView, PrereleaseBlock, PrereleaseView, Version, VersionView};
use crate::text::chars_of;

verus! {

/// The first of two orderings that is not `Equal`.
pub open spec fn then_spec(first: Ordering, second: Ordering) -> Ordering {
    if first != Ordering::Equal {
        first
    } else {
        second
    }
}

pub open spec fn cmp_int(a: int, b: int) -> Ordering {
    if a < b {
        Ordering::Less
    } else if a > b {
        Ordering::Greater
    } else {
        Ordering::Equal
    }
}

/// Lexical order of character sequences, character by character.
pub open spec fn cmp_chars(a: Seq<char>, b: Seq<char>) -> Ordering
    decreases a.len(),
{
    if a.len() == 0 && b.len() == 0 {
        Ordering::Equal
    } else if a.len() == 0 {
        Ordering::Less
    } else if b.len() == 0 {
        Ordering::Greater
    } else if a[0] != b[0] {
        cmp_int(a[0] as int, b[0] as int)
    } else {
        cmp_chars(a.drop_first(), b.drop_first())
    }
}

/// The component at `i`, zero past the end.
pub open spec fn padded(a: Seq<u32>, i: int) -> int {
    if 0 <= i < a.len() {
        a[i] as int
    } else {
        0
    }
}

/// Position-wise order from position `i` on, the shorter sequence padded
/// with zeros.
pub open spec fn cmp_numbers_from(a: Seq<u32>, b: Seq<u32>, i: nat) -> Ordering
    decreases a.len() + b.len() - i,
{
    if i >= a.len() && i >= b.len() {
        Ordering::Equal
    } else if padded(a, i as int) != padded(b, i as int) {
        cmp_int(padded(a, i as int), padded(b, i as int))
    } else {
        cmp_numbers_from(a, b, i + 1)
    }
}

pub open spec fn cmp_numbers_spec(a: Seq<u32>, b: Seq<u32>) -> Ordering {
    cmp_numbers_from(a, b, 0)
}

/// An absent epoch ranks below every declared one.
pub open spec fn cmp_epoch_spec(a: Option<u8>, b: Option<u8>) -> Ordering {
    match (a, b) {
        (None, None) => Ordering::Equal,
        (Some(_), None) => Ordering::Greater,
        (None, Some(_)) => Ordering::Less,
        (Some(x), Some(y)) => cmp_int(x as int, y as int),
    }
}

/// An absent pre-release letter ranks above every present one.
pub open spec fn cmp_pre_letter_spec(a: Option<char>, b: Option<char>) -> Ordering {
    match (a, b) {
        (None, None) => Ordering::Equal,
        (Some(_), None) => Ordering::Less,
        (None, Some(_)) => Ordering::Greater,
        (Some(x), Some(y)) => cmp_int(x as int, y as int),
    }
}

/// An absent post-release letter ranks below every present one.
pub open spec fn cmp_post_letter_spec(a: Option<char>, b: Option<char>) -> Ordering {
    match (a, b) {
        (None, None) => Ordering::Equal,
        (Some(_), None) => Ordering::Greater,
        (None, Some(_)) => Ordering::Less,
        (Some(x), Some(y)) => cmp_int(x as int, y as int),
    }
}

pub open spec fn cmp_main_spec(a: MainView, b: MainView) -> Ordering {
    then_spec(
        cmp_numbers_spec(a.numbers, b.numbers),
        then_spec(
            cmp_pre_letter_spec(a.pre_letter, b.pre_letter),
            cmp_post_letter_spec(a.post_letter, b.post_letter),
        ),
    )
}

/// An empty step ranks above every other; other steps go in lexical order.
pub open spec fn cmp_step_spec(a: Seq<char>, b: Seq<char>) -> Ordering {
    if a.len() == 0 && b.len() > 0 {
        Ordering::Greater
    } else if a.len() > 0 && b.len() == 0 {
        Ordering::Less
    } else {
        cmp_chars(a, b)
    }
}

/// A sub-qualifier ranks below its absence.
pub open spec fn cmp_post_step_spec(a: Option<Seq<char>>, b: Option<Seq<char>>) -> Ordering {
    match (a, b) {
        (None, None) => Ordering::Equal,
        (Some(_), None) => Ordering::Less,
        (None, Some(_)) => Ordering::Greater,
        (Some(x), Some(y)) => cmp_chars(x, y),
    }
}

/// An absent sub-number ranks below every present one.
pub open spec fn cmp_post_number_spec(a: Option<u8>, b: Option<u8>) -> Ordering {
    match (a, b) {
        (None, None) => Ordering::Equal,
        (Some(_), None) => Ordering::Greater,
        (None, Some(_)) => Ordering::Less,
        (Some(x), Some(y)) => cmp_int(x as int, y as int),
    }
}

pub open spec fn cmp_prerelease_block_spec(a: PrereleaseView, b: PrereleaseView) -> Ordering {
    then_spec(
        cmp_step_spec(a.step, b.step),
        then_spec(
            cmp_post_step_spec(a.post_step, b.post_step),
            cmp_post_number_spec(a.post_number, b.post_number),
        ),
    )
}

/// A pre-release ranks below the release it precedes.
pub open spec fn cmp_prerelease_spec(a: Option<PrereleaseView>, b: Option<PrereleaseView>) -> Ordering {
    match (a, b) {
        (None, None) => Ordering::Equal,
        (Some(_), None) => Ordering::Less,
        (None, Some(_)) => Ordering::Greater,
        (Some(x), Some(y)) => cmp_prerelease_block_spec(x, y),
    }
}

/// A build number ranks above its absence.
pub open spec fn cmp_build_spec(a: Option<u8>, b: Option<u8>) -> Ordering {
    match (a, b) {
        (None, None) => Ordering::Equal,
        (Some(_), None) => Ordering::Greater,
        (None, Some(_)) => Ordering::Less,
        (Some(x), Some(y)) => cmp_int(x as int, y as int),
    }
}

/// The order of versions: epoch, main block, pre-release, build, the first
/// field that differs deciding.
pub open spec fn cmp_version_spec(a: VersionView, b: VersionView) -> Ordering {
    then_spec(
        cmp_epoch_spec(a.epoch, b.epoch),
        then_spec(
            cmp_main_spec(a.main, b.main),
            then_spec(
                cmp_prerelease_spec(a.pre_release, b.pre_release),
                cmp_build_spec(a.build, b.build),
            ),
        ),
    )
}

fn cmp_u32(a: u32, b: u32) -> (r: Ordering)
    ensures
        r == cmp_int(a as int, b as int),
{
    if a < b {
        Ordering::Less
    } else if a > b {
        Ordering::Greater
    } else {
        Ordering::Equal
    }
}

fn cmp_char(a: char, b: char) -> (r: Ordering)
    ensures
        r == cmp_int(a as int, b as int),
{
    if a < b {
        Ordering::Less
    } else if a > b {
        Ordering::Greater
    } else {
        Ordering::Equal
    }
}

/// Lexical order of two strings, character by character.
pub fn cmp_str(a: &str, b: &str) -> (r: Ordering)
    ensures
        r == cmp_chars(a@, b@),
{
    let x = chars_of(a);
    let y = chars_of(b);
    let mut i: usize = 0;
    assert(x@.skip(0) =~= x@);
    assert(y@.skip(0) =~= y@);
    while i < x.len() && i < y.len()
        invariant
            i <= x.len(),
            i <= y.len(),
            cmp_chars(a@, b@) == cmp_chars(x@.skip(i as int), y@.skip(i as int)),
        decreases x.len() - i,
    {
        assert(x@.skip(i as int).drop_first() =~= x@.skip(i + 1));
        assert(y@.skip(i as int).drop_first() =~= y@.skip(i + 1));
        if x[i] != y[i] {
            return cmp_char(x[i], y[i]);
        }
        i += 1;
    }
    if x.len() == y.len() {
        Ordering::Equal
    } else if i == x.len() {
        Ordering::Less
    } else {
        Ordering::Greater
    }
}

impl Version {
    fn cmp_epoch(&self, other: &Version) -> (r: Ordering)
        ensures
            r == cmp_epoch_spec(self.epoch, other.epoch),
    {
        match (self.epoch, other.epoch) {
            (None, None) => Ordering::Equal,
            (Some(_), None) => Ordering::Greater,
            (None, Some(_)) => Ordering::Less,
            (Some(x), Some(y)) => cmp_u32(x as u32, y as u32),
        }
    }

    fn cmp_prerelease(&self, other: &Version) -> (r: Ordering)
        ensures
            r == cmp_prerelease_spec(self@.pre_release, other@.pre_release),
    {
        match (&self.pre_release, &other.pre_release) {
            (None, None) => Ordering::Equal,
            (Some(_), None) => Ordering::Less,
            (None, Some(_)) => Ordering::Greater,
            (Some(x), Some(y)) => x.cmp(y),
        }
    }

    fn cmp_build(&self, other: &Version) -> (r: Ordering)
        ensures
            r == cmp_build_spec(self@.build, other@.build),
    {
        match (self.build, other.build) {
            (None, None) => Ordering::Equal,
            (Some(_), None) => Ordering::Greater,
            (None, Some(_)) => Ordering::Less,
            (Some(x), Some(y)) => x.cmp(&y),
        }
    }

    /// Orders two versions: epoch, then main block, then pre-release, then
    /// build, the first field that differs deciding.
    pub fn cmp(&self, other: &Version) -> (r: Ordering)
        ensures
            r == cmp_version_spec(self@, other@),
    {
        let order = self.cmp_epoch(other);
        if !matches!(order, Ordering::Equal) {
            return order;
        }
        let order = self.main.cmp(&other.main);
        if !matches!(order, Ordering::Equal) {
            return order;
        }
        let order = self.cmp_prerelease(other);
        if !matches!(order, Ordering::Equal) {
            return order;
        }
        self.cmp_build(other)
    }
}

impl MainBlock {
    fn cmp_numbers(&self, other: &MainBlock) -> (r: Ordering)
        ensures
            r == cmp_numbers_spec(self.numbers@, other.numbers@),
    {
        let a = &self.numbers;
        let b = &other.numbers;
        let max_size: usize = if a.len() > b.len() { a.len() } else { b.len() };
        let mut index: usize = 0;
        while index < max_size
            invariant
                max_size == if a.len() > b.len() { a.len() } else { b.len() },
                index <= max_size,
                a@ == self.numbers@,
                b@ == other.numbers@,
                cmp_numbers_spec(a@, b@) == cmp_numbers_from(a@, b@, index as nat),
            decreases max_size - index,
        {
            let x: u32 = if index < a.len() { a[index] } else { 0 };
            let y: u32 = if index < b.len() { b[index] } else { 0 };
            assert(x == padded(a@, index as int));
            assert(y == padded(b@, index as int));
            if x != y {
                assert(cmp_numbers_from(a@, b@, index as nat) == cmp_int(x as int, y as int));
                return cmp_u32(x, y);
            }
            index += 1;
        }
        Ordering::Equal
    }

    fn cmp_pre_letter(&self, other: &MainBlock) -> (r: Ordering)
        ensures
            r == cmp_pre_letter_spec(self.pre_letter, other.pre_letter),
    {
        match (self.pre_letter, other.pre_letter) {
            (None, None) => Ordering::Equal,
            (Some(_), None) => Ordering::Less,
            (None, Some(_)) => Ordering::Greater,
            (Some(x), Some(y)) => cmp_char(x, y),
        }
    }

    fn cmp_post_letter(&self, other: &MainBlock) -> (r: Ordering)
        ensures
            r == cmp_post_letter_spec(self.post_letter, other.post_letter),
    {
        match (self.post_letter, other.post_letter) {
            (None, None) => Ordering::Equal,
            (Some(_), None) => Ordering::Greater,
            (None, Some(_)) => Ordering::Less,
            (Some(x), Some(y)) => cmp_char(x, y),
        }
    }

    /// Orders two main blocks: numbers (zero-padded), then pre-release
    /// letter, then post-release letter.
    pub fn cmp(&self, other: &MainBlock) -> (r: Ordering)
        ensures
            r == cmp_main_spec(self@, other@),
    {
        let order = self.cmp_numbers(other);
        if !matches!(order, Ordering::Equal) {
            return order;
        }
        let order = self.cmp_pre_letter(other);
        if !matches!(order, Ordering::Equal) {
            return order;
        }
        self.cmp_post_letter(other)
    }
}

impl PrereleaseBlock {
    fn cmp_step(&self, other: &PrereleaseBlock) -> (r: Ordering)
        ensures
            r == cmp_step_spec(self.step@, other.step@),
    {
        let x = self.step.as_str();
        let y = other.step.as_str();
        let order = cmp_str(x, y);
        if matches!(order, Ordering::Less) && x.is_empty() {
            Ordering::Greater
        } else if matches!(order, Ordering::Greater) && y.is_empty() {
            Ordering::Less
        } else {
            order
        }
    }

    fn cmp_post_step(&self, other: &PrereleaseBlock) -> (r: Ordering)
        ensures
            r == cmp_post_step_spec(self@.post_step, other@.post_step),
    {
        match (&self.post_step, &other.post_step) {
            (None, None) => Ordering::Equal,
            (Some(_), None) => Ordering::Less,
            (None, Some(_)) => Ordering::Greater,
            (Some(x), Some(y)) => cmp_str(x.as_str(), y.as_str()),
        }
    }

    fn cmp_post_number(&self, other: &PrereleaseBlock) -> (r: Ordering)
        ensures
            r == cmp_post_number_spec(self.post_number, other.post_number),
    {
        match (self.post_number, other.post_number) {
            (None, None) => Ordering::Equal,
            (Some(_), None) => Ordering::Greater,
            (None, Some(_)) => Ordering::Less,
            (Some(x), Some(y)) => cmp_u32(x as u32, y as u32),
        }
    }

    /// Orders two pre-release blocks: step, then sub-qualifier, then
    /// sub-number.
    pub fn cmp(&self, other: &PrereleaseBlock) -> (r: Ordering)
        ensures
            r == cmp_prerelease_block_spec(self@, other@),
    {
        let order = self.cmp_step(other);
        if !matches!(order, Ordering::Equal) {
            return order;
        }
        let order = self.cmp_post_step(other);
        if !matches!(order, Ordering::Equal) {
            return order;
        }
        self.cmp_post_number(other)
    }
}

impl BuildBlock {
    /// Orders two build blocks by their numbers.
    pub fn cmp(&self, other: &BuildBlock) -> (r: Ordering)
        ensures
            r == cmp_int(self.number as int, other.number as int),
    {
        cmp_u32(self.number as u32, other.number as u32)
    }
}

} // verus!
