//! The settings that the commands and the file formats read.
use vstd::prelude::*;

verus! {

#[derive(Debug)]
pub struct Config {
    pub root_dir: String,
    pub temp_dir: String,
    pub archive_dir: String,
    pub projects_delimeter: String,
    pub default_filetype: String,
    /// The format of dates in frontmatter, as chrono's strftime
    pub date_format: String,
    /// Directories, relative to the root, left out of overviews
    pub overview_ignore_dirs: Vec<String>,
    pub sort_tasks: bool,
}

impl Config {
    /// Settings rooted at `.nodo`, with `md` files and dates written day/month/year.
    pub fn new() -> (r: Config)
        ensures
            r.root_dir@ == ".nodo"@,
            r.temp_dir@ == ".nodo/temp"@,
            r.archive_dir@ == ".nodo/archive"@,
            r.projects_delimeter@ == "/"@,
            r.default_filetype@ == "md"@,
            r.date_format@ == "%d/%m/%Y"@,
            r.overview_ignore_dirs@.len() == 0,
            r.sort_tasks,
    {
        Config {
            root_dir: String::from_str(".nodo"),
            temp_dir: String::from_str(".nodo/temp"),
            archive_dir: String::from_str(".nodo/archive"),
            projects_delimeter: String::from_str("/"),
            default_filetype: String::from_str("md"),
            date_format: String::from_str("%d/%m/%Y"),
            overview_ignore_dirs: Vec::new(),
            sort_tasks: true,
        }
    }
}

} // verus!
