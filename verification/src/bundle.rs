//! Bundles and the allowlist that decides which file names may be served.
//!
//! The directory listing and the download by name both go through
//! [`admit_file`], so the two can never disagree on what a bundle is.

use vstd::prelude::*;
use vstd::string::*;
use crate::text::{chars_of, has_char, has_prefix, has_suffix};

verus! {

/// What the file system told about one file.
#[derive(Clone, Copy, Debug, PartialEq, Eq)]
pub struct Meta {
    /// Length of the file in bytes.
    pub len: u64,
    /// Time of the last modification in nanoseconds since the Unix epoch,
    /// negative before it; `None` where the platform could not tell.
    pub modified: Option<i128>,
}

impl Meta {
    /// The time a file is ordered by: its modification time, or the epoch
    /// itself where that is unknown.
    pub open spec fn stamp(self) -> int {
        match self.modified {
            Some(t) => t as int,
            None => 0,
        }
    }
}

/// An archive that may be listed and downloaded.
#[derive(Clone, Debug, PartialEq, Eq)]
pub struct Bundle {
    /// File name inside the base directory.
    pub name: String,
    /// Length in bytes.
    pub len: u64,
    /// Time the bundle is ordered by, in nanoseconds since the Unix epoch.
    pub modified: i128,
}

/// The mathematical value of a [`Bundle`].
pub struct BundleView {
    pub name: Seq<char>,
    pub len: nat,
    pub modified: int,
}

impl View for Bundle {
    type V = BundleView;

    open spec fn view(&self) -> BundleView {
        BundleView { name: self.name@, len: self.len as nat, modified: self.modified as int }
    }
}

/// Why a file name was not admitted.
#[derive(Clone, Copy, Debug, PartialEq, Eq)]
pub enum Denied {
    /// The name is outside the allowlist, whether or not such a file exists.
    Forbidden,
    /// The name is allowed, but there is no such file or it cannot be read.
    NotFound,
}

/// How every bundle name begins.
pub open spec fn name_prefix() -> Seq<char> {
    "rm-debug-"@
}

/// How every bundle name ends.
pub open spec fn name_suffix() -> Seq<char> {
    ".tgz"@
}

/// Whether the extension of the file name `name` is `tgz`: the name ends
/// with `.tgz` and something stands before that.
pub open spec fn has_archive_extension(name: Seq<char>) -> bool {
    name.len() > name_suffix().len() && name_suffix().is_suffix_of(name)
}

/// Whether `name` follows the naming convention `rm-debug-*.tgz`.
pub open spec fn matches_pattern(name: Seq<char>) -> bool {
    name_prefix().is_prefix_of(name) && name_suffix().is_suffix_of(name)
}

/// The allowlist: `name` has the extension, follows the naming convention
/// and names a file directly in the base directory.
pub open spec fn is_bundle_name(name: Seq<char>) -> bool {
    has_archive_extension(name) && matches_pattern(name) && !name.contains('/')
}

/// Whether a requested file name is unsafe whatever the allowlist says: it
/// holds a path separator or begins with a dot.
pub open spec fn is_unsafe_name(name: Seq<char>) -> bool {
    name.contains('/') || (name.len() > 0 && name[0] == '.')
}

/// The verdict on the file called `name`, of which the file system told
/// `found`: `None` where it is missing or unreadable.
pub open spec fn admit_of(name: Seq<char>, found: Option<Meta>) -> Result<BundleView, Denied> {
    if !is_bundle_name(name) {
        Err(Denied::Forbidden)
    } else {
        match found {
            None => Err(Denied::NotFound),
            Some(meta) => Ok(BundleView { name, len: meta.len as nat, modified: meta.stamp() }),
        }
    }
}

/// A name that follows the naming convention is the prefix, anything, and
/// the suffix, in that order and without overlap; that is, it matches the
/// regular expression `^rm-debug-.*\.tgz$` with `.` standing for any
/// character. The converse holds too.
pub proof fn lemma_pattern_shape(name: Seq<char>)
    ensures
        matches_pattern(name) <==> exists|middle: Seq<char>|
            name == name_prefix() + middle + name_suffix(),
        matches_pattern(name) ==> name.len() >= 13,
{
    reveal_strlit("rm-debug-");
    reveal_strlit(".tgz");
    let p = name_prefix();
    let s = name_suffix();
    if matches_pattern(name) {
        let n = name.len() as int;
        assert(name.subrange(0, 9) == p);
        assert(name.subrange(n - 4, n) == s);
        if n < 13 {
            let k = n - 4;
            assert(name[k] == s[0]);
            assert(name[k] == p[k]);
        }
        let middle = name.subrange(9, n - 4);
        assert(name =~= p + middle + s);
    }
    if exists|middle: Seq<char>| name == p + middle + s {
        let middle = choose|middle: Seq<char>| name == p + middle + s;
        assert(name.subrange(0, 9) =~= p);
        assert(name.subrange(name.len() - 4, name.len() as int) =~= s);
    }
}

/// The two checks on a name are redundant: what follows the naming
/// convention has the extension.
pub proof fn lemma_pattern_has_extension(name: Seq<char>)
    ensures
        matches_pattern(name) ==> has_archive_extension(name),
{
    lemma_pattern_shape(name);
    reveal_strlit(".tgz");
}

/// A file is admitted exactly if its name matches `^rm-debug-.*\.tgz$`,
/// holds no path separator and the file exists. An admitted name never
/// begins with a dot, so it can neither leave the base directory nor name a
/// hidden file.
pub proof fn lemma_admission(name: Seq<char>, found: Option<Meta>)
    ensures
        admit_of(name, found) is Ok <==> matches_pattern(name) && !name.contains('/')
            && found is Some,
        admit_of(name, found) is Ok ==> name.len() > 0 && name[0] != '.' && !is_unsafe_name(name),
        admit_of(name, found) == Err::<BundleView, Denied>(Denied::Forbidden) <==> !(
        matches_pattern(name) && !name.contains('/')),
        admit_of(name, found) == Err::<BundleView, Denied>(Denied::NotFound) <==> matches_pattern(
            name,
        ) && !name.contains('/') && found is None,
{
    lemma_pattern_has_extension(name);
    if matches_pattern(name) {
        reveal_strlit("rm-debug-");
        assert(name[0] == name.subrange(0, 9)[0]);
    }
}

/// Whether `name` is on the allowlist.
pub fn is_allowed(name: &str) -> (b: bool)
    ensures
        b == is_bundle_name(name@),
{
    let chars = chars_of(name);
    let prefix = chars_of("rm-debug-");
    let suffix = chars_of(".tgz");
    if !(chars.len() > suffix.len() && has_suffix(&chars, &suffix)) {
        return false;
    }
    if !(has_prefix(&chars, &prefix) && has_suffix(&chars, &suffix)) {
        return false;
    }
    !has_char(&chars, '/')
}

/// Whether the requested file name `name` is unsafe whatever the allowlist
/// says.
pub fn is_unsafe(name: &str) -> (b: bool)
    ensures
        b == is_unsafe_name(name@),
{
    let chars = chars_of(name);
    has_char(&chars, '/') || (chars.len() > 0 && chars[0] == '.')
}

/// Decides whether the file called `name` may be served, given what the
/// file system told about it.
pub fn admit_file(name: &str, found: Option<Meta>) -> (r: Result<Bundle, Denied>)
    ensures
        match r {
            Ok(bundle) => admit_of(name@, found) == Ok::<BundleView, Denied>(bundle@),
            Err(denied) => admit_of(name@, found) == Err::<BundleView, Denied>(denied),
        },
{
    if !is_allowed(name) {
        return Err(Denied::Forbidden);
    }
    match found {
        None => Err(Denied::NotFound),
        Some(meta) => {
            let modified: i128 = match meta.modified {
                Some(t) => t,
                None => 0,
            };
            Ok(Bundle { name: String::from_str(name), len: meta.len, modified })
        },
    }
}

} // verus!
