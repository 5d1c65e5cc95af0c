//! Selection of the files whose contents are collected, and the records the
//! collection produces. Every file of the snapshot is considered on its own
//! root-relative path, wherever it lies: unlike the tree, the collection does
//! not prune a directory whose name matches an ignore pattern, it filters each
//! file by its full relative path.

use vstd::prelude::*;
use vstd::string::*;

use crate::filter::{
    should_ignore, should_include, spec_should_ignore, spec_should_include,
};
use crate::snapshot::{
    entry_size, join_rel, keep_entry, lemma_concat_contains, lemma_elem_size, seq_size, spec_join,
    FsEntry, FsEntryKind,
};
use crate::FileContent;

verus! {

/// The root-relative paths of the files the collection keeps, in snapshot
/// order: regular files only, the output artifact dropped, and each file kept
/// exactly when no ignore pattern matches it and the include list admits it.
pub open spec fn spec_files(
    s: Seq<FsEntry>,
    parent: Seq<char>,
    ignore: Seq<Seq<char>>,
    includes: Seq<Seq<char>>,
    out: Option<Seq<char>>,
) -> Seq<Seq<char>>
    decreases seq_size(s),
{
    if s.len() == 0 {
        Seq::empty()
    } else {
        let e = s[0];
        let rel = spec_join(parent, e.name@);
        let head: Seq<Seq<char>> = match e.kind {
            FsEntryKind::Dir(c) => spec_files(c@, rel, ignore, includes, out),
            FsEntryKind::File => {
                if keep_entry(parent, out, e) && !spec_should_ignore(rel, ignore)
                    && spec_should_include(rel, includes) {
                    seq![rel]
                } else {
                    Seq::empty()
                }
            },
            FsEntryKind::Other => Seq::empty(),
        };
        head + spec_files(s.drop_first(), parent, ignore, includes, out)
    }
}

fn collect_listing(
    children: &Vec<FsEntry>,
    parent: &String,
    ignore_globs: &Vec<String>,
    include_globs: &Vec<String>,
    out: &Option<String>,
    acc: &mut Vec<String>,
)
    ensures
        final(acc).deep_view() == old(acc).deep_view() + spec_files(
            children@,
            parent@,
            ignore_globs.deep_view(),
            include_globs.deep_view(),
            out.deep_view(),
        ),
    decreases seq_size(children@),
{
    let ghost ig = ignore_globs.deep_view();
    let ghost inc = include_globs.deep_view();
    let ghost ov = out.deep_view();
    let mut i: usize = 0;
    proof {
        assert(children@.skip(0) =~= children@);
        assert(old(acc).deep_view() + Seq::<Seq<char>>::empty() =~= old(acc).deep_view());
    }
    while i < children.len()
        invariant
            0 <= i <= children@.len(),
            ig == ignore_globs.deep_view(),
            inc == include_globs.deep_view(),
            ov == out.deep_view(),
            acc.deep_view() + spec_files(children@.skip(i as int), parent@, ig, inc, ov) == old(
                acc,
            ).deep_view() + spec_files(children@, parent@, ig, inc, ov),
        decreases children@.len() - i,
    {
        let e = &children[i];
        let ghost suf = children@.skip(i as int);
        let ghost acc0 = acc.deep_view();
        proof {
            assert(suf[0] == children@[i as int]);
            assert(suf.drop_first() =~= children@.skip(i + 1));
        }
        let rel = join_rel(parent, &e.name);
        match &e.kind {
            FsEntryKind::Dir(c) => {
                proof {
                    assert(children@.contains(*e));
                    lemma_elem_size(children@, *e);
                    assert(entry_size(*e) == 1 + seq_size(c@));
                }
                collect_listing(c, &rel, ignore_globs, include_globs, out, acc);
                proof {
                    let head = spec_files(c@, rel@, ig, inc, ov);
                    let rest = spec_files(children@.skip(i + 1), parent@, ig, inc, ov);
                    assert(spec_files(suf, parent@, ig, inc, ov) == head + rest);
                    assert((acc0 + head) + rest =~= acc0 + (head + rest));
                }
            },
            FsEntryKind::File => {
                let kept = match out {
                    Option::Some(o) => !rel.eq(o),
                    Option::None => true,
                };
                proof {
                    assert(kept == keep_entry(parent@, ov, children@[i as int]));
                }
                if kept && !should_ignore(&rel, ignore_globs) && should_include(
                    &rel,
                    include_globs,
                ) {
                    acc.push(rel);
                    proof {
                        let head = seq![spec_join(parent@, suf[0].name@)];
                        let rest = spec_files(children@.skip(i + 1), parent@, ig, inc, ov);
                        assert(acc.deep_view() =~= acc0 + head);
                        assert(spec_files(suf, parent@, ig, inc, ov) == head + rest);
                        assert((acc0 + head) + rest =~= acc0 + (head + rest));
                    }
                } else {
                    proof {
                        let rest = spec_files(children@.skip(i + 1), parent@, ig, inc, ov);
                        assert(spec_files(suf, parent@, ig, inc, ov) == Seq::<Seq<char>>::empty()
                            + rest);
                        assert(Seq::<Seq<char>>::empty() + rest =~= rest);
                    }
                }
            },
            FsEntryKind::Other => {
                proof {
                    let rest = spec_files(children@.skip(i + 1), parent@, ig, inc, ov);
                    assert(spec_files(suf, parent@, ig, inc, ov) == Seq::<Seq<char>>::empty()
                        + rest);
                    assert(Seq::<Seq<char>>::empty() + rest =~= rest);
                }
            },
        }
        i += 1;
    }
    proof {
        assert(children@.skip(children@.len() as int) =~= Seq::<FsEntry>::empty());
        assert(acc.deep_view() + Seq::<Seq<char>>::empty() =~= acc.deep_view());
    }
}

/// The root-relative paths of every file of the snapshot that the collection
/// keeps, in snapshot order.
pub fn select_files(
    root: &Vec<FsEntry>,
    ignore_globs: &Vec<String>,
    include_globs: &Vec<String>,
    output_rel: &Option<String>,
) -> (r: Vec<String>)
    ensures
        r.deep_view() == spec_files(
            root@,
            Seq::empty(),
            ignore_globs.deep_view(),
            include_globs.deep_view(),
            output_rel.deep_view(),
        ),
{
    let mut acc: Vec<String> = Vec::new();
    let parent = String::new();
    proof {
        assert(acc.deep_view() =~= Seq::<Seq<char>>::empty());
    }
    collect_listing(root, &parent, ignore_globs, include_globs, output_rel, &mut acc);
    proof {
        assert(Seq::<Seq<char>>::empty() + spec_files(
            root@,
            Seq::empty(),
            ignore_globs.deep_view(),
            include_globs.deep_view(),
            output_rel.deep_view(),
        ) =~= spec_files(
            root@,
            Seq::empty(),
            ignore_globs.deep_view(),
            include_globs.deep_view(),
            output_rel.deep_view(),
        ));
    }
    acc
}

/// The placeholder a dry run records instead of reading the file.
pub open spec fn spec_dry_run_content(path: Seq<char>) -> Seq<char> {
    "[Dry Run] Content of "@ + path + " would be here."@
}

/// The diagnostic recorded when a file could not be read as text.
pub open spec fn spec_read_error() -> Seq<char> {
    "Could not be read as UTF-8 text. Might be binary or encoding issue."@
}

/// The record a dry run produces for one selected file: the synthesized
/// placeholder naming the file's path, never its bytes.
pub fn dry_run_record(path: &String) -> (r: FileContent)
    ensures
        r.path@ == path@,
        r.content@ == spec_dry_run_content(path@),
        r.error is None,
{
    let mut content = String::from_str("[Dry Run] Content of ");
    content.append(path.as_str());
    content.append(" would be here.");
    proof {
        assert(content@ =~= spec_dry_run_content(path@));
    }
    FileContent { path: path.clone(), content, error: None }
}

/// The records a dry run produces for the selected files, in selection order.
pub fn dry_run_records(paths: &Vec<String>) -> (r: Vec<FileContent>)
    ensures
        r@.len() == paths@.len(),
        forall|i: int|
            0 <= i < r@.len() ==> (#[trigger] r@[i]).path@ == paths.deep_view()[i] && r@[i].content@
                == spec_dry_run_content(paths.deep_view()[i]) && r@[i].error is None,
{
    let mut r: Vec<FileContent> = Vec::new();
    let mut i: usize = 0;
    while i < paths.len()
        invariant
            0 <= i <= paths@.len(),
            r@.len() == i,
            forall|k: int|
                0 <= k < i ==> (#[trigger] r@[k]).path@ == paths.deep_view()[k] && r@[k].content@
                    == spec_dry_run_content(paths.deep_view()[k]) && r@[k].error is None,
        decreases paths@.len() - i,
    {
        let rec = dry_run_record(&paths[i]);
        r.push(rec);
        i += 1;
    }
    r
}

/// The record one read attempt produces: the text when the read succeeded,
/// else an empty content with the fixed diagnostic; the file is never dropped.
pub fn record_of_read(path: String, read: Option<String>) -> (r: FileContent)
    ensures
        r.path@ == path@,
        match read {
            Option::Some(c) => r.content@ == c@ && r.error is None,
            Option::None => r.content@ == Seq::<char>::empty() && (r.error matches Some(m) && m@
                == spec_read_error()),
        },
{
    match read {
        Option::Some(content) => FileContent { path, content, error: None },
        Option::None => {
            let msg = String::from_str(
                "Could not be read as UTF-8 text. Might be binary or encoding issue.",
            );
            FileContent { path, content: String::new(), error: Some(msg) }
        },
    }
}

/// The (path, content) pairs of a record collection, as a set.
pub open spec fn record_pairs(records: Seq<FileContent>) -> Set<(Seq<char>, Seq<char>)> {
    records.map_values(|fc: FileContent| (fc.path@, fc.content@)).to_set()
}

/// Law: collections that hold the same records in any two orders expose the
/// same set of (path, content) pairs; the gathering order carries no meaning.
pub proof fn lemma_records_order_independent(a: Seq<FileContent>, b: Seq<FileContent>)
    requires
        a.to_multiset() == b.to_multiset(),
    ensures
        record_pairs(a) == record_pairs(b),
{
    a.to_multiset_ensures();
    b.to_multiset_ensures();
    assert forall|p: (Seq<char>, Seq<char>)| record_pairs(a).contains(p) implies record_pairs(
        b,
    ).contains(p) by {
        lemma_pair_membership(a, b, p);
    }
    assert forall|p: (Seq<char>, Seq<char>)| record_pairs(b).contains(p) implies record_pairs(
        a,
    ).contains(p) by {
        lemma_pair_membership(b, a, p);
    }
    assert(record_pairs(a) =~= record_pairs(b));
}

proof fn lemma_pair_membership(a: Seq<FileContent>, b: Seq<FileContent>, p: (Seq<char>, Seq<char>))
    requires
        a.to_multiset() == b.to_multiset(),
        record_pairs(a).contains(p),
    ensures
        record_pairs(b).contains(p),
{
    a.to_multiset_ensures();
    b.to_multiset_ensures();
    let fm = |fc: FileContent| (fc.path@, fc.content@);
    assert(a.map_values(fm).contains(p));
    let i = choose|i: int| 0 <= i < a.map_values(fm).len() && a.map_values(fm)[i] == p;
    let fc = a[i];
    assert(a.contains(fc));
    assert(b.to_multiset().count(fc) > 0);
    assert(b.contains(fc));
    let j = choose|j: int| 0 <= j < b.len() && b[j] == fc;
    assert(b.map_values(fm)[j] == p);
    assert(b.map_values(fm).contains(p));
}

/// Law: when the output artifact lies inside the root, its path is never
/// among the collected files.
pub proof fn lemma_output_not_collected(
    s: Seq<FsEntry>,
    parent: Seq<char>,
    ignore: Seq<Seq<char>>,
    includes: Seq<Seq<char>>,
    o: Seq<char>,
)
    ensures
        !spec_files(s, parent, ignore, includes, Some(o)).contains(o),
    decreases seq_size(s),
{
    if s.len() == 0 {
    } else {
        let e = s[0];
        let rel = spec_join(parent, e.name@);
        let head: Seq<Seq<char>> = match e.kind {
            FsEntryKind::Dir(c) => spec_files(c@, rel, ignore, includes, Some(o)),
            FsEntryKind::File => {
                if keep_entry(parent, Some(o), e) && !spec_should_ignore(rel, ignore)
                    && spec_should_include(rel, includes) {
                    seq![rel]
                } else {
                    Seq::empty()
                }
            },
            FsEntryKind::Other => Seq::empty(),
        };
        match e.kind {
            FsEntryKind::Dir(c) => {
                assert(s.contains(e)) by {
                    assert(s[0] == e);
                }
                lemma_elem_size(s, e);
                assert(entry_size(e) == 1 + seq_size(c@));
                lemma_output_not_collected(c@, rel, ignore, includes, o);
            },
            FsEntryKind::File => {
                if keep_entry(parent, Some(o), e) {
                    assert(rel != o);
                    assert(!seq![rel].contains(o)) by {
                        assert(seq![rel].len() == 1 && seq![rel][0] == rel);
                    }
                }
            },
            FsEntryKind::Other => {},
        }
        lemma_output_not_collected(s.drop_first(), parent, ignore, includes, o);
        lemma_concat_contains(
            head,
            spec_files(s.drop_first(), parent, ignore, includes, Some(o)),
            o,
        );
    }
}

} // verus!
