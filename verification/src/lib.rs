//! Turns a snapshot of a directory subtree into a single ingestible artifact:
//! an optional rendered directory tree plus the set of files selected for
//! content extraction, under ignore/include glob filtering.
//!
//! All filesystem reads happen outside this crate; the caller hands in an
//! in-memory [`FsEntry`] snapshot of the subtree, the relative location of the
//! output artifact (so it can be excluded), and, for each selected file, the
//! outcome of reading it.

use vstd::prelude::*;

pub mod filter;
pub mod snapshot;
pub mod tree;
pub mod collect;

use crate::collect::{select_files, spec_files};
use crate::snapshot::FsEntry;
use crate::tree::{generate_tree, spec_tree};

verus! {

/// A request: where the scan is rooted, where the output artifact goes,
/// the two pattern lists, and the two mode flags.
pub struct LingestOptions {
    pub cwd: String,
    pub output_path: String,
    pub ignore_globs: Vec<String>,
    pub include_globs: Vec<String>,
    pub no_tree: bool,
    pub dry_run: bool,
}

/// One collected file: its root-relative slash-separated path, its content
/// (empty when the read failed), and the read diagnostic, if any.
pub struct FileContent {
    pub path: String,
    pub content: String,
    pub error: Option<String>,
}

/// The assembled answer: the rendered tree (unless suppressed), the collected
/// records, and how many records there are.
pub struct LingestResult {
    pub tree: Option<String>,
    pub file_contents: Vec<FileContent>,
    pub processed_count: u32,
}

/// The two verified passes over one snapshot: the rendered tree (unless
/// suppressed) and the selection of files whose contents are to be gathered.
pub struct IngestPlan {
    pub tree: Option<String>,
    pub files: Vec<String>,
}

/// Runs both passes over the snapshot rooted at `root`: renders the tree
/// unless the request suppresses it, and selects the files to collect.
/// `output_rel` is the root-relative path of the output artifact when it lies
/// inside the root, so that it is excluded from both passes.
pub fn process_snapshot(
    root: &Vec<FsEntry>,
    options: &LingestOptions,
    output_rel: &Option<String>,
) -> (r: IngestPlan)
    ensures
        options.no_tree ==> r.tree is None,
        !options.no_tree ==> (r.tree matches Some(t) && t@ == spec_tree(
            root@,
            options.ignore_globs.deep_view(),
            options.include_globs.deep_view(),
            output_rel.deep_view(),
        )),
        r.files.deep_view() == spec_files(
            root@,
            Seq::empty(),
            options.ignore_globs.deep_view(),
            options.include_globs.deep_view(),
            output_rel.deep_view(),
        ),
{
    let tree = if !options.no_tree {
        Some(generate_tree(root, &options.ignore_globs, &options.include_globs, output_rel))
    } else {
        None
    };
    let files = select_files(root, &options.ignore_globs, &options.include_globs, output_rel);
    IngestPlan { tree, files }
}

/// Puts the answer together: the tree text and the records, counting every
/// record, the failed reads among them.
pub fn assemble_result(tree: Option<String>, file_contents: Vec<FileContent>) -> (r: LingestResult)
    requires
        file_contents@.len() <= u32::MAX,
    ensures
        r.tree == tree,
        r.file_contents == file_contents,
        r.processed_count == file_contents@.len(),
{
    let processed_count = file_contents.len() as u32;
    LingestResult { tree, file_contents, processed_count }
}

} // verus!
