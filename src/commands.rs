//! The rules of the commands that do not touch the file system: which
//! arguments they refuse, and which lines a formatting preview shows.
use vstd::prelude::*;
use crate::cli::{Archive, Edit, New, Remove};
use crate::error::CommandError;

verus! {

impl New {
    /// A new nodo needs a target.
    pub fn check(&self) -> (r: Result<(), CommandError>)
        ensures
            r is Ok <==> self.target.inner@.len() > 0,
            r is Err ==> r == Err::<(), CommandError>(CommandError::NoTarget),
    {
        if self.target.is_empty() {
            Err(CommandError::NoTarget)
        } else {
            Ok(())
        }
    }
}

impl Archive {
    /// Archiving needs a target.
    pub fn check(&self) -> (r: Result<(), CommandError>)
        ensures
            r is Ok <==> self.target.inner@.len() > 0,
            r is Err ==> r == Err::<(), CommandError>(CommandError::NoTarget),
    {
        if self.target.is_empty() {
            Err(CommandError::NoTarget)
        } else {
            Ok(())
        }
    }
}

impl Edit {
    /// A temporary nodo takes no target, and a template only serves to create.
    pub fn check(&self) -> (r: Result<(), CommandError>)
        ensures
            match r {
                Ok(()) => !(self.temp && self.target.inner@.len() > 0) && !(!self.create
                    && self.template.inner is Some),
                Err(CommandError::Str(m)) => if self.temp && self.target.inner@.len() > 0 {
                    m@ == "Can't edit a temporary nodo with a target"@
                } else {
                    !self.create && self.template.inner is Some && m@
                        == "Can't edit from a template without the `create` option"@
                },
                Err(_) => false,
            },
    {
        if self.temp && !self.target.is_empty() {
            return Err(CommandError::Str(String::from_str("Can't edit a temporary nodo with a target")));
        }
        if !self.create && self.template.inner.is_some() {
            return Err(
                CommandError::Str(
                    String::from_str("Can't edit from a template without the `create` option"),
                ),
            );
        }
        Ok(())
    }
}

/// What removing a found target does.
#[derive(Debug, PartialEq, Eq, Structural)]
pub enum Removal {
    File,
    /// A project with all it holds
    Tree,
}

impl Remove {
    /// A file is removed; a project only with force.
    pub fn plan(&self, is_file: bool, is_dir: bool) -> (r: Result<Removal, CommandError>)
        ensures
            match r {
                Ok(Removal::File) => is_file,
                Ok(Removal::Tree) => !is_file && is_dir && self.force,
                Err(CommandError::Str(m)) => if !is_file && is_dir {
                    !self.force && m@ == "'"@ + self.target.inner@
                        + "' is a directory, can't remove without '-f'"@
                } else {
                    !is_file && !is_dir && m@ == "Not sure what type of file the target was"@
                },
                Err(_) => false,
            },
    {
        if is_file {
            Ok(Removal::File)
        } else if is_dir {
            if self.force {
                Ok(Removal::Tree)
            } else {
                let mut m = String::from_str("'");
                m.append(self.target.inner.as_str());
                m.append("' is a directory, can't remove without '-f'");
                Err(CommandError::Str(m))
            }
        } else {
            Err(CommandError::Str(String::from_str("Not sure what type of file the target was")))
        }
    }
}

/// One line of a line diff.
#[derive(Debug, PartialEq)]
pub enum DiffLine {
    /// Only in the first text
    Left(String),
    /// In both texts
    Both(String),
    /// Only in the second text
    Right(String),
}

/// The line diff of two texts.
pub uninterp spec fn line_diff(left: Seq<char>, right: Seq<char>) -> Seq<DiffLine>;

/// Relies on diff::lines: the lines of the two texts, each marked as in the
/// first only, in both, or in the second only; the result depends on the two
/// texts alone.
#[verifier::external_body]
fn diff_lines(left: &str, right: &str) -> (r: Vec<DiffLine>)
    ensures
        r@ == line_diff(left@, right@),
{
    diff::lines(left, right).into_iter().map(|d| match d {
        diff::Result::Left(l) => DiffLine::Left(l.to_string()),
        diff::Result::Both(l, _) => DiffLine::Both(l.to_string()),
        diff::Result::Right(r) => DiffLine::Right(r.to_string()),
    }).collect()
}

/// Whether a line of the diff changes something.
pub open spec fn is_change(d: DiffLine) -> bool {
    !(d is Both)
}

/// Whether line `i` lies within `context` lines of a change.
pub open spec fn near_change(ds: Seq<DiffLine>, i: int, context: int) -> bool {
    exists|j: int| 0 <= j < ds.len() && i - context <= j <= i + context && is_change(#[trigger] ds[j])
}

/// For each line of a diff, whether it lies within `context` lines of a change.
pub fn lines_in_context(ds: &Vec<DiffLine>, context: usize) -> (r: Vec<bool>)
    ensures
        r@.len() == ds@.len(),
        forall|i: int| 0 <= i < ds@.len() ==> r@[i] == near_change(ds@, i, context as int),
{
    let n = ds.len();
    let mut r: Vec<bool> = Vec::new();
    let mut i: usize = 0;
    while i < n
        invariant
            i <= n,
            n == ds@.len(),
            r@.len() == i,
            forall|k: int| 0 <= k < i ==> r@[k] == near_change(ds@, k, context as int),
        decreases n - i,
    {
        let lo: usize = if i >= context { i - context } else { 0 };
        let hi: usize = if n - 1 - i >= context { i + context } else { n - 1 };
        let mut found = false;
        let mut j: usize = lo;
        while j <= hi && !found
            invariant
                lo <= j <= hi + 1,
                i < n,
                n == ds@.len(),
                hi < n,
                lo as int == if i >= context { i - context } else { 0 },
                hi as int == if n - 1 - i >= context { i + context } else { n - 1 },
                found ==> near_change(ds@, i as int, context as int),
                !found ==> forall|k: int| lo <= k < j ==> !is_change(#[trigger] ds@[k]),
            decreases hi + 1 - j, if found { 0int } else { 1int },
        {
            let changed = match &ds[j] {
                DiffLine::Both(_) => false,
                _ => true,
            };
            if changed {
                assert(is_change(ds@[j as int]));
                found = true;
            } else {
                j = j + 1;
            }
        }
        assert(!found ==> !near_change(ds@, i as int, context as int)) by {
            if !found {
                assert forall|k: int| 0 <= k < ds@.len() && i - context <= k <= i + context implies !is_change(
                    #[trigger] ds@[k],
                ) by {
                    assert(lo <= k < j);
                }
            }
        }
        r.push(found);
        i = i + 1;
    }
    r
}

/// The line diff of a text and its new version, and for each of its lines
/// whether it lies within `context` lines of a change.
pub fn diff_preview(before: &str, after: &str, context: usize) -> (r: (Vec<DiffLine>, Vec<bool>))
    ensures
        r.0@ == line_diff(before@, after@),
        r.1@.len() == r.0@.len(),
        forall|i: int| 0 <= i < r.0@.len() ==> r.1@[i] == near_change(r.0@, i, context as int),
{
    let ds = diff_lines(before, after);
    let shown = lines_in_context(&ds, context);
    (ds, shown)
}

} // verus!
