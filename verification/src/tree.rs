//! Deterministic rendering of the directory tree. Each directory's listing is
//! rendered in listing order; an entry gets a branch connector unless it is
//! the last of the listing, which gets a corner connector. Whether an entry is
//! last is decided on the listing before ignore filtering, by design: a
//! trailing ignored entry leaves the preceding visible one with a branch
//! connector.

use vstd::prelude::*;
use vstd::string::*;

use crate::filter::{
    should_ignore, should_include, spec_should_ignore, spec_should_include,
};
use crate::snapshot::{
    deref_seq, entry_size, join_rel, keep_entry, lemma_elem_size, lemma_keep_size,
    lemma_sort_size, listing_refs, seq_size, spec_join, spec_keep, spec_listing, spec_sort, FsEntry,
    FsEntryKind,
};

verus! {

/// The text rendered for one entry of a sibling listing: its own line, unless
/// an ignore pattern prunes it (directories with their whole subtree) or, for
/// a file, the include list shuts it out; below a directory line, the
/// rendering of the directory's own listing, indented by four more columns.
pub open spec fn spec_entry_text(
    e: FsEntry,
    parent: Seq<char>,
    prefix: Seq<char>,
    is_last: bool,
    ignore: Seq<Seq<char>>,
    includes: Seq<Seq<char>>,
    out: Option<Seq<char>>,
) -> Seq<char>
    decreases entry_size(e), 0nat,
{
    let rel = spec_join(parent, e.name@);
    let connector = if is_last {
        "└── "@
    } else {
        "├── "@
    };
    if spec_should_ignore(rel, ignore) {
        Seq::<char>::empty()
    } else {
        match e.kind {
            FsEntryKind::Dir(c) => {
                proof {
                    lemma_keep_size(c@, rel, out);
                    lemma_sort_size(spec_keep(c@, rel, out));
                }
                prefix + connector + e.name@ + "/\n"@ + spec_render(
                    spec_listing(c@, rel, out),
                    rel,
                    prefix + (if is_last {
                        "    "@
                    } else {
                        "│   "@
                    }),
                    ignore,
                    includes,
                    out,
                )
            },
            FsEntryKind::File => {
                if spec_should_include(rel, includes) {
                    prefix + connector + e.name@ + "\n"@
                } else {
                    Seq::<char>::empty()
                }
            },
            FsEntryKind::Other => Seq::<char>::empty(),
        }
    }
}

/// The text rendered for one sibling listing `s` (already in listing order,
/// with the output artifact dropped): the first entry's text, then the rest's.
pub open spec fn spec_render(
    s: Seq<FsEntry>,
    parent: Seq<char>,
    prefix: Seq<char>,
    ignore: Seq<Seq<char>>,
    includes: Seq<Seq<char>>,
    out: Option<Seq<char>>,
) -> Seq<char>
    decreases seq_size(s), 1nat,
{
    if s.len() == 0 {
        Seq::empty()
    } else {
        spec_entry_text(s[0], parent, prefix, s.len() == 1, ignore, includes, out)
            + spec_render(s.drop_first(), parent, prefix, ignore, includes, out)
    }
}

/// The whole tree text for a snapshot's root listing.
pub open spec fn spec_tree(
    root: Seq<FsEntry>,
    ignore: Seq<Seq<char>>,
    includes: Seq<Seq<char>>,
    out: Option<Seq<char>>,
) -> Seq<char> {
    spec_render(
        spec_listing(root, Seq::empty(), out),
        Seq::empty(),
        Seq::empty(),
        ignore,
        includes,
        out,
    )
}

fn render_listing(
    children: &Vec<FsEntry>,
    parent: &String,
    prefix: &String,
    ignore_globs: &Vec<String>,
    include_globs: &Vec<String>,
    out: &Option<String>,
) -> (r: String)
    ensures
        r@ == spec_render(
            spec_listing(children@, parent@, out.deep_view()),
            parent@,
            prefix@,
            ignore_globs.deep_view(),
            include_globs.deep_view(),
            out.deep_view(),
        ),
    decreases seq_size(children@),
{
    let ghost ig = ignore_globs.deep_view();
    let ghost inc = include_globs.deep_view();
    let ghost ov = out.deep_view();
    let sorted = listing_refs(children, parent, out);
    let ghost ss = spec_listing(children@, parent@, ov);
    let mut res = String::new();
    let total = sorted.len();
    let mut i: usize = 0;
    proof {
        assert(ss.skip(0) =~= ss);
    }
    while i < total
        invariant
            total == sorted@.len(),
            0 <= i <= total,
            deref_seq(sorted@) == ss,
            ss == spec_listing(children@, parent@, ov),
            ig == ignore_globs.deep_view(),
            inc == include_globs.deep_view(),
            ov == out.deep_view(),
            spec_render(ss, parent@, prefix@, ig, inc, ov) == res@ + spec_render(
                ss.skip(i as int),
                parent@,
                prefix@,
                ig,
                inc,
                ov,
            ),
        decreases total - i,
    {
        let e: &FsEntry = sorted[i];
        let rel = join_rel(parent, &e.name);
        let is_last = i == total - 1;
        let ghost res0 = res@;
        let ghost suf = ss.skip(i as int);
        let ghost head = spec_entry_text(*e, parent@, prefix@, is_last, ig, inc, ov);
        proof {
            assert(suf[0] == ss[i as int]);
            assert(ss[i as int] == *e);
            assert(suf.drop_first() =~= ss.skip(i + 1));
            assert((suf.len() == 1) == is_last);
        }
        if !should_ignore(&rel, ignore_globs) {
            match &e.kind {
                FsEntryKind::Dir(c) => {
                    res.append(prefix.as_str());
                    if is_last {
                        res.append("└── ");
                    } else {
                        res.append("├── ");
                    }
                    res.append(e.name.as_str());
                    res.append("/\n");
                    let mut below = prefix.clone();
                    if is_last {
                        below.append("    ");
                    } else {
                        below.append("│   ");
                    }
                    proof {
                        assert(ss.contains(*e));
                        lemma_sort_size(spec_keep(children@, parent@, ov));
                        lemma_keep_size(children@, parent@, ov);
                        assert(spec_sort(spec_keep(children@, parent@, ov)).contains(*e));
                        assert(spec_keep(children@, parent@, ov).contains(*e));
                        assert(children@.contains(*e));
                        lemma_elem_size(children@, *e);
                        assert(entry_size(*e) == 1 + seq_size(c@));
                    }
                    let sub = render_listing(c, &rel, &below, ignore_globs, include_globs, out);
                    res.append(sub.as_str());
                    proof {
                        assert(res@ =~= res0 + head);
                    }
                },
                FsEntryKind::File => {
                    if should_include(&rel, include_globs) {
                        res.append(prefix.as_str());
                        if is_last {
                            res.append("└── ");
                        } else {
                            res.append("├── ");
                        }
                        res.append(e.name.as_str());
                        res.append("\n");
                        proof {
                            assert(res@ =~= res0 + head);
                        }
                    } else {
                        proof {
                            assert(res@ =~= res0 + head);
                        }
                    }
                },
                FsEntryKind::Other => {
                    proof {
                        assert(res@ =~= res0 + head);
                    }
                },
            }
        } else {
            proof {
                assert(res@ =~= res0 + head);
            }
        }
        proof {
            let rest = spec_render(ss.skip(i + 1), parent@, prefix@, ig, inc, ov);
            assert(spec_render(suf, parent@, prefix@, ig, inc, ov) == head + rest);
            assert(res0 + (head + rest) =~= (res0 + head) + rest);
        }
        i += 1;
    }
    proof {
        assert(ss.skip(total as int) =~= Seq::<FsEntry>::empty());
        assert(res@ + Seq::<char>::empty() =~= res@);
    }
    res
}

/// Renders the tree for the snapshot rooted at `root`. The output artifact,
/// when `output_rel` names it, is left out; directories matching an ignore
/// pattern are pruned with their whole subtree; files are shown only when
/// ignored by nothing and included.
pub fn generate_tree(
    root: &Vec<FsEntry>,
    ignore_globs: &Vec<String>,
    include_globs: &Vec<String>,
    output_rel: &Option<String>,
) -> (r: String)
    ensures
        r@ == spec_tree(
            root@,
            ignore_globs.deep_view(),
            include_globs.deep_view(),
            output_rel.deep_view(),
        ),
{
    let parent = String::new();
    let prefix = String::new();
    render_listing(root, &parent, &prefix, ignore_globs, include_globs, output_rel)
}

/// Law: when the output artifact lies in a directory, its entry is dropped
/// from that directory's rendered listing.
pub proof fn lemma_output_not_listed(children: Seq<FsEntry>, parent: Seq<char>, o: Seq<char>)
    ensures
        forall|i: int|
            0 <= i < spec_listing(children, parent, Some(o)).len() ==> spec_join(
                parent,
                #[trigger] spec_listing(children, parent, Some(o))[i].name@,
            ) != o,
{
    lemma_keep_size(children, parent, Some(o));
    lemma_sort_size(spec_keep(children, parent, Some(o)));
    assert forall|i: int| 0 <= i < spec_listing(children, parent, Some(o)).len() implies spec_join(
        parent,
        #[trigger] spec_listing(children, parent, Some(o))[i].name@,
    ) != o by {
        let x = spec_listing(children, parent, Some(o))[i];
        assert(spec_listing(children, parent, Some(o)).contains(x));
        assert(spec_keep(children, parent, Some(o)).contains(x));
        assert(keep_entry(parent, Some(o), x));
    }
}

} // verus!
