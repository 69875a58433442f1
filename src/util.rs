//! Where targets live: building their paths and deciding which entries an
//! overview skips.
use vstd::prelude::*;
use std::path::{Path, PathBuf};
use crate::cli::Target;
use crate::config::Config;
use crate::error::CommandError;

verus! {

/// A path followed by another (the second alone when it is absolute).
pub uninterp spec fn path_join(base: Seq<char>, rest: Seq<char>) -> Seq<char>;

/// Whether the file name of a path has an extension.
pub uninterp spec fn path_has_extension(p: Seq<char>) -> bool;

/// A path with the extension of its file name set (replaced or added).
pub uninterp spec fn path_with_extension(p: Seq<char>, ext: Seq<char>) -> Seq<char>;

/// Whether a path begins with the components of another.
pub uninterp spec fn path_starts_with(p: Seq<char>, base: Seq<char>) -> bool;

/// Relies on std's Path::join; the result depends on the two paths alone.
#[verifier::external_body]
fn join_path(base: &str, rest: &str) -> (r: String)
    ensures
        r@ == path_join(base@, rest@),
{
    Path::new(base).join(rest).to_string_lossy().into_owned()
}

/// Relies on std's Path::extension; the result depends on the path alone.
#[verifier::external_body]
fn has_extension(p: &str) -> (r: bool)
    ensures
        r == path_has_extension(p@),
{
    Path::new(p).extension().is_some()
}

/// Whether a text holds a path separator (`/`, or `\\` on some systems).
pub open spec fn has_separator(s: Seq<char>) -> bool {
    exists|i: int| 0 <= i < s.len() && (s[i] == '/' || s[i] == '\\')
}

pub fn contains_separator(s: &str) -> (r: bool)
    ensures
        r == has_separator(s@),
{
    let n = s.unicode_len();
    let mut i: usize = 0;
    while i < n
        invariant
            i <= n,
            n == s@.len(),
            forall|k: int| 0 <= k < i ==> !(s@[k] == '/' || s@[k] == '\\'),
        decreases n - i,
    {
        let c = s.get_char(i);
        if c == '/' || c == '\\' {
            return true;
        }
        i = i + 1;
    }
    false
}

/// Relies on std's PathBuf::set_extension, which panics on an extension that
/// holds a path separator; the result depends on the path and the extension
/// alone.
#[verifier::external_body]
fn with_extension(p: &str, ext: &str) -> (r: String)
    requires
        !has_separator(ext@),
    ensures
        r@ == path_with_extension(p@, ext@),
{
    let mut pb = PathBuf::from(p);
    pb.set_extension(ext);
    pb.to_string_lossy().into_owned()
}

/// Relies on std's Path::starts_with, which compares whole components; the
/// result depends on the two paths alone.
#[verifier::external_body]
fn starts_with_path(p: &str, base: &str) -> (r: bool)
    ensures
        r == path_starts_with(p@, base@),
{
    Path::new(p).starts_with(base)
}

/// The path of a target under the root; with `add_ext`, a non-empty target
/// whose file name has no extension gets the default one (unless that holds a
/// path separator, which no extension can).
pub open spec fn target_path(config: Config, target: Seq<char>, add_ext: bool) -> Seq<char> {
    let p = path_join(config.root_dir@, target);
    if add_ext && !path_has_extension(p) && target.len() > 0 && !has_separator(config.default_filetype@) {
        path_with_extension(p, config.default_filetype@)
    } else {
        p
    }
}

pub fn build_path(config: &Config, target: &str, add_ext: bool) -> (r: String)
    ensures
        r@ == target_path(*config, target@, add_ext),
{
    let p = join_path(config.root_dir.as_str(), target);
    if add_ext && !has_extension(p.as_str()) && target.unicode_len() > 0 && !contains_separator(
        config.default_filetype.as_str(),
    ) {
        with_extension(p.as_str(), config.default_filetype.as_str())
    } else {
        p
    }
}

impl Target {
    pub fn build_path(&self, config: &Config, add_ext: bool) -> (r: String)
        ensures
            r@ == target_path(*config, self.inner@, add_ext),
    {
        build_path(config, self.inner.as_str(), add_ext)
    }
}

/// The paths a target may stand at, in the order they are tried: as written,
/// then with the default extension when it has none (and the extension holds
/// no path separator).
pub open spec fn candidates(config: Config, target: Seq<char>) -> Seq<Seq<char>> {
    let p = target_path(config, target, false);
    if path_has_extension(p) || has_separator(config.default_filetype@) {
        seq![p]
    } else {
        seq![p, path_with_extension(p, config.default_filetype@)]
    }
}

pub fn target_candidates(config: &Config, target: &Target) -> (r: Vec<String>)
    ensures
        r@.len() == candidates(*config, target.inner@).len(),
        forall|i: int| 0 <= i < r@.len() ==> (#[trigger] r@[i])@ == candidates(*config, target.inner@)[i],
{
    let p = target.build_path(config, false);
    let mut r: Vec<String> = Vec::new();
    if has_extension(p.as_str()) || contains_separator(config.default_filetype.as_str()) {
        r.push(p);
    } else {
        let q = with_extension(p.as_str(), config.default_filetype.as_str());
        r.push(p);
        r.push(q);
    }
    r
}

/// The first candidate that exists, where `present[i]` tells whether the
/// candidate `i` of the target does (a candidate without an entry does not);
/// a missing target otherwise.
pub fn find_target(config: &Config, target: &Target, present: &Vec<bool>) -> (r: Result<String, CommandError>)
    ensures
        match r {
            Ok(p) => exists|i: int|
                0 <= i < candidates(*config, target.inner@).len() && i < present@.len() && present@[i]
                    && p@ == candidates(*config, target.inner@)[i] && forall|j: int|
                    0 <= j < i ==> !present@[j],
            Err(CommandError::TargetMissing(t)) => t.inner@ == target.inner@ && forall|i: int|
                0 <= i < candidates(*config, target.inner@).len() && i < present@.len()
                    ==> !present@[i],
            Err(_) => false,
        },
{
    let c = target_candidates(config, target);
    let mut i: usize = 0;
    while i < c.len()
        invariant
            i <= c.len(),
            c@.len() == candidates(*config, target.inner@).len(),
            forall|k: int| 0 <= k < c@.len() ==> (#[trigger] c@[k])@ == candidates(*config, target.inner@)[k],
            forall|j: int| 0 <= j < i && j < present@.len() ==> !present@[j],
        decreases c.len() - i,
    {
        if i < present.len() && present[i] {
            let p = c[i].clone();
            assert(p@ == candidates(*config, target.inner@)[i as int]);
            return Ok(p);
        }
        i = i + 1;
    }
    Err(CommandError::TargetMissing(Target { inner: target.inner.clone() }))
}

/// Whether an entry met while walking from `target_path` is skipped: it is in
/// the temporary or the archive directory while the walk did not start there.
pub open spec fn hidden(config: Config, target_path: Seq<char>, entry_path: Seq<char>) -> bool {
    (path_starts_with(entry_path, config.temp_dir@) && !path_starts_with(target_path, config.temp_dir@))
        || (path_starts_with(entry_path, config.archive_dir@) && !path_starts_with(
        target_path,
        config.archive_dir@,
    ))
}

pub fn is_hidden_dir(config: &Config, target_path: &str, entry_path: &str) -> (r: bool)
    ensures
        r == hidden(*config, target_path@, entry_path@),
{
    (starts_with_path(entry_path, config.temp_dir.as_str()) && !starts_with_path(
        target_path,
        config.temp_dir.as_str(),
    )) || (starts_with_path(entry_path, config.archive_dir.as_str()) && !starts_with_path(
        target_path,
        config.archive_dir.as_str(),
    ))
}

/// Whether an overview skips an entry: it is hidden from the walk, or its
/// path relative to the root is one of the ignored directories.
pub open spec fn skipped(config: Config, walk_path: Seq<char>, entry_path: Seq<char>, relative: Seq<char>) -> bool {
    hidden(config, walk_path, entry_path) || exists|i: int|
        0 <= i < config.overview_ignore_dirs@.len() && (#[trigger] config.overview_ignore_dirs@[i])@
            == relative
}

pub fn is_skipped(config: &Config, walk_path: &str, entry_path: &str, relative: &str) -> (r: bool)
    ensures
        r == skipped(*config, walk_path@, entry_path@, relative@),
{
    if is_hidden_dir(config, walk_path, entry_path) {
        return true;
    }
    let dirs = &config.overview_ignore_dirs;
    let mut i: usize = 0;
    while i < dirs.len()
        invariant
            i <= dirs.len(),
            dirs@ == config.overview_ignore_dirs@,
            forall|k: int| 0 <= k < i ==> (#[trigger] dirs@[k])@ != relative@,
        decreases dirs.len() - i,
    {
        if same_text(dirs[i].as_str(), relative) {
            return true;
        }
        i = i + 1;
    }
    false
}

/// Whether two texts are equal.
fn same_text(a: &str, b: &str) -> (r: bool)
    ensures
        r == (a@ == b@),
{
    let n = a.unicode_len();
    if n != b.unicode_len() {
        return false;
    }
    let mut i: usize = 0;
    while i < n
        invariant
            i <= n,
            n == a@.len(),
            n == b@.len(),
            forall|k: int| 0 <= k < i ==> a@[k] == b@[k],
        decreases n - i,
    {
        if a.get_char(i) != b.get_char(i) {
            return false;
        }
        i = i + 1;
    }
    assert(a@ =~= b@);
    true
}

} // verus!
