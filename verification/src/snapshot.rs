//! The in-memory snapshot of a directory subtree, and the order in which a
//! directory's entries are listed: directories before files, and within each
//! group lexicographically by name.

use vstd::prelude::*;
use vstd::string::*;

verus! {

/// One directory entry of the snapshot: its name and what it is. Entries that
/// are neither directories nor regular files (symbolic links, devices) are
/// recorded as [`FsEntryKind::Other`]: they take part in sibling ordering but
/// are never rendered nor collected.
pub struct FsEntry {
    pub name: String,
    pub kind: FsEntryKind,
}

pub enum FsEntryKind {
    File,
    Dir(Vec<FsEntry>),
    Other,
}

/// A measure of a sibling list: the number of entries in it, recursively.
/// Every entry counts 1, so the measure of a list bounds the measure of
/// anything strictly inside it.
pub open spec fn seq_size(s: Seq<FsEntry>) -> nat
    decreases s,
{
    if s.len() == 0 {
        0
    } else {
        (match s[0].kind {
            FsEntryKind::Dir(c) => {
                proof {
                    assert(decreases_to!(s => s[0]));
                }
                1 + seq_size(c@)
            },
            _ => 1nat,
        }) + seq_size(s.drop_first())
    }
}

pub open spec fn entry_size(e: FsEntry) -> nat {
    match e.kind {
        FsEntryKind::Dir(c) => 1 + seq_size(c@),
        _ => 1nat,
    }
}

/// The root-relative path of a child named `name` inside a directory whose
/// own root-relative path is `parent` (empty at the root).
pub open spec fn spec_join(parent: Seq<char>, name: Seq<char>) -> Seq<char> {
    if parent.len() == 0 {
        name
    } else {
        parent + "/"@ + name
    }
}

pub fn join_rel(parent: &String, name: &String) -> (r: String)
    ensures
        r@ == spec_join(parent@, name@),
{
    if parent.as_str().is_empty() {
        name.clone()
    } else {
        let mut r = parent.clone();
        r.append("/");
        r.append(name.as_str());
        proof {
            assert(r@ =~= spec_join(parent@, name@));
        }
        r
    }
}

/// Lexicographic order on names, by code point; ties between equal prefixes
/// fall to the shorter name. This is the order `str` comparison uses.
pub open spec fn lex_le(a: Seq<char>, b: Seq<char>) -> bool
    decreases a.len(),
{
    if a.len() == 0 {
        true
    } else if b.len() == 0 {
        false
    } else if a[0] == b[0] {
        lex_le(a.drop_first(), b.drop_first())
    } else {
        (a[0] as int) < (b[0] as int)
    }
}

pub fn lex_le_strs(a: &String, b: &String) -> (r: bool)
    ensures
        r == lex_le(a@, b@),
{
    let alen = a.as_str().unicode_len();
    let blen = b.as_str().unicode_len();
    let mut i: usize = 0;
    proof {
        assert(a@.skip(0) =~= a@);
        assert(b@.skip(0) =~= b@);
    }
    while i < alen && i < blen
        invariant
            alen == a@.len(),
            blen == b@.len(),
            0 <= i <= alen,
            0 <= i <= blen,
            lex_le(a@, b@) == lex_le(a@.skip(i as int), b@.skip(i as int)),
        decreases alen - i,
    {
        let ca = a.as_str().get_char(i);
        let cb = b.as_str().get_char(i);
        if ca != cb {
            let lt = (ca as u32) < (cb as u32);
            proof {
                assert(lt == ((ca as int) < (cb as int)));
            }
            return lt;
        }
        proof {
            assert(a@.skip(i as int).drop_first() =~= a@.skip(i + 1));
            assert(b@.skip(i as int).drop_first() =~= b@.skip(i + 1));
        }
        i += 1;
    }
    i == alen
}

/// Directories come before everything else; non-directories (files and the
/// rest) share one rank.
pub open spec fn dir_rank(e: FsEntry) -> int {
    match e.kind {
        FsEntryKind::Dir(_) => 0,
        _ => 1,
    }
}

/// The sibling listing order: directories first, then by name.
pub open spec fn listing_le(a: FsEntry, b: FsEntry) -> bool {
    dir_rank(a) < dir_rank(b) || (dir_rank(a) == dir_rank(b) && lex_le(a.name@, b.name@))
}

fn entry_le(a: &FsEntry, b: &FsEntry) -> (r: bool)
    ensures
        r == listing_le(*a, *b),
{
    let ra: u8 = match a.kind {
        FsEntryKind::Dir(_) => 0,
        _ => 1,
    };
    let rb: u8 = match b.kind {
        FsEntryKind::Dir(_) => 0,
        _ => 1,
    };
    if ra < rb {
        true
    } else if ra > rb {
        false
    } else {
        lex_le_strs(&a.name, &b.name)
    }
}

/// Insertion into an already sorted listing, keeping earlier entries with an
/// equal key in front.
pub open spec fn spec_insert(s: Seq<FsEntry>, e: FsEntry) -> Seq<FsEntry>
    decreases s.len(),
{
    if s.len() == 0 {
        seq![e]
    } else if listing_le(s[0], e) {
        seq![s[0]] + spec_insert(s.drop_first(), e)
    } else {
        seq![e] + s
    }
}

/// The sorted sibling listing: stable insertion sort under [`listing_le`].
pub open spec fn spec_sort(s: Seq<FsEntry>) -> Seq<FsEntry>
    decreases s.len(),
{
    if s.len() == 0 {
        Seq::empty()
    } else {
        spec_insert(spec_sort(s.drop_last()), s.last())
    }
}

/// Whether a child survives the output-artifact exclusion: it does unless its
/// root-relative path is exactly the artifact's.
pub open spec fn keep_entry(parent: Seq<char>, out: Option<Seq<char>>, e: FsEntry) -> bool {
    match out {
        Option::Some(o) => spec_join(parent, e.name@) != o,
        Option::None => true,
    }
}

/// The children that survive the output-artifact exclusion, in listing order
/// of the snapshot.
pub open spec fn spec_keep(s: Seq<FsEntry>, parent: Seq<char>, out: Option<Seq<char>>) -> Seq<
    FsEntry,
>
    decreases s.len(),
{
    if s.len() == 0 {
        Seq::empty()
    } else {
        let rest = spec_keep(s.drop_first(), parent, out);
        if keep_entry(parent, out, s[0]) {
            seq![s[0]] + rest
        } else {
            rest
        }
    }
}

/// A sequence of borrowed entries, read as the entries themselves.
pub open spec fn deref_seq(s: Seq<&FsEntry>) -> Seq<FsEntry> {
    s.map_values(|e: &FsEntry| *e)
}

pub proof fn lemma_concat_contains<T>(a: Seq<T>, b: Seq<T>, x: T)
    ensures
        (a + b).contains(x) <==> a.contains(x) || b.contains(x),
{
    if (a + b).contains(x) {
        let i = choose|i: int| 0 <= i < (a + b).len() && (a + b)[i] == x;
        if i < a.len() {
            assert(a[i] == x);
        } else {
            assert(b[i - a.len()] == x);
        }
    }
    if a.contains(x) {
        let i = choose|i: int| 0 <= i < a.len() && a[i] == x;
        assert((a + b)[i] == x);
    }
    if b.contains(x) {
        let i = choose|i: int| 0 <= i < b.len() && b[i] == x;
        assert((a + b)[a.len() + i] == x);
    }
}

pub proof fn lemma_insert_size(s: Seq<FsEntry>, e: FsEntry)
    ensures
        seq_size(spec_insert(s, e)) == seq_size(s) + entry_size(e),
        spec_insert(s, e).contains(e),
        forall|x: FsEntry| spec_insert(s, e).contains(x) ==> s.contains(x) || x == e,
    decreases s.len(),
{
    if s.len() == 0 {
        assert(spec_insert(s, e) == seq![e]);
        assert(seq![e].drop_first() =~= Seq::<FsEntry>::empty());
        assert(seq_size(seq![e]) == entry_size(e) + seq_size(Seq::<FsEntry>::empty()));
    } else if listing_le(s[0], e) {
        lemma_insert_size(s.drop_first(), e);
        let t = seq![s[0]] + spec_insert(s.drop_first(), e);
        assert(t[0] == s[0]);
        assert(t.drop_first() =~= spec_insert(s.drop_first(), e));
        assert(seq_size(t) == entry_size(s[0]) + seq_size(spec_insert(s.drop_first(), e)));
        assert(seq_size(s) == entry_size(s[0]) + seq_size(s.drop_first()));
        assert(t.contains(e)) by {
            lemma_concat_contains(seq![s[0]], spec_insert(s.drop_first(), e), e);
        }
        assert forall|x: FsEntry| t.contains(x) implies s.contains(x) || x == e by {
            lemma_concat_contains(seq![s[0]], spec_insert(s.drop_first(), e), x);
            if seq![s[0]].contains(x) {
                assert(x == s[0]);
                assert(s.contains(x));
            } else if spec_insert(s.drop_first(), e).contains(x) {
                if s.drop_first().contains(x) {
                    let i = choose|i: int|
                        0 <= i < s.drop_first().len() && s.drop_first()[i] == x;
                    assert(s[i + 1] == x);
                }
            }
        }
    } else {
        let t = seq![e] + s;
        assert(t[0] == e);
        assert(t.drop_first() =~= s);
        assert(seq_size(t) == entry_size(e) + seq_size(s));
        assert(t.contains(e)) by {
            assert(t[0] == e);
        }
        assert forall|x: FsEntry| t.contains(x) implies s.contains(x) || x == e by {
            lemma_concat_contains(seq![e], s, x);
        }
    }
}

pub proof fn lemma_sort_size(s: Seq<FsEntry>)
    ensures
        seq_size(spec_sort(s)) == seq_size(s),
        forall|x: FsEntry| spec_sort(s).contains(x) ==> s.contains(x),
    decreases s.len(),
{
    if s.len() == 0 {
    } else {
        lemma_sort_size(s.drop_last());
        lemma_insert_size(spec_sort(s.drop_last()), s.last());
        lemma_seq_size_drop_last(s);
        assert forall|x: FsEntry| spec_sort(s).contains(x) implies s.contains(x) by {
            if spec_sort(s.drop_last()).contains(x) || s.drop_last().contains(x) {
                if s.drop_last().contains(x) {
                    let i = choose|i: int| 0 <= i < s.drop_last().len() && s.drop_last()[i] == x;
                    assert(s[i] == x);
                }
            }
            if x == s.last() {
                assert(s[s.len() - 1] == x);
            }
        }
    }
}

/// The measure of a list is the measure of all but its last entry, plus that
/// entry's own.
pub proof fn lemma_seq_size_drop_last(s: Seq<FsEntry>)
    requires
        s.len() > 0,
    ensures
        seq_size(s) == seq_size(s.drop_last()) + entry_size(s.last()),
    decreases s.len(),
{
    if s.len() == 1 {
        assert(s.drop_last() =~= Seq::<FsEntry>::empty());
        assert(s.drop_first() =~= Seq::<FsEntry>::empty());
        assert(seq_size(s) == entry_size(s[0]) + seq_size(s.drop_first()));
    } else {
        lemma_seq_size_drop_last(s.drop_first());
        assert(s.drop_first().drop_last() =~= s.drop_last().drop_first());
        assert(s.drop_first().last() == s.last());
        assert(s.drop_last()[0] == s[0]);
        assert(seq_size(s) == entry_size(s[0]) + seq_size(s.drop_first()));
        assert(seq_size(s.drop_last()) == entry_size(s.drop_last()[0]) + seq_size(
            s.drop_last().drop_first(),
        ));
    }
}

pub proof fn lemma_keep_size(s: Seq<FsEntry>, parent: Seq<char>, out: Option<Seq<char>>)
    ensures
        seq_size(spec_keep(s, parent, out)) <= seq_size(s),
        forall|x: FsEntry| #[trigger] spec_keep(s, parent, out).contains(x) ==> s.contains(x)
            && keep_entry(parent, out, x),
    decreases s.len(),
{
    if s.len() == 0 {
    } else {
        lemma_keep_size(s.drop_first(), parent, out);
        let rest = spec_keep(s.drop_first(), parent, out);
        if keep_entry(parent, out, s[0]) {
            let t = seq![s[0]] + rest;
            assert(t[0] == s[0]);
            assert(t.drop_first() =~= rest);
            assert(seq_size(t) == entry_size(s[0]) + seq_size(rest));
            assert(seq_size(s) == entry_size(s[0]) + seq_size(s.drop_first()));
        }
        assert forall|x: FsEntry| #[trigger] spec_keep(s, parent, out).contains(x) implies s.contains(
            x,
        ) && keep_entry(parent, out, x) by {
            if keep_entry(parent, out, s[0]) {
                lemma_concat_contains(seq![s[0]], rest, x);
            }
            if rest.contains(x) {
                let i = choose|i: int| 0 <= i < s.drop_first().len() && s.drop_first()[i] == x;
                assert(s[i + 1] == x);
            }
        }
    }
}

/// Anything in a listing measures no more than the listing itself.
pub proof fn lemma_elem_size(s: Seq<FsEntry>, x: FsEntry)
    requires
        s.contains(x),
    ensures
        entry_size(x) <= seq_size(s),
    decreases s.len(),
{
    if s[0] == x {
        assert(seq_size(s) == entry_size(s[0]) + seq_size(s.drop_first()));
    } else {
        let i = choose|i: int| 0 <= i < s.len() && s[i] == x;
        assert(s.drop_first()[i - 1] == x);
        lemma_elem_size(s.drop_first(), x);
        assert(seq_size(s) == entry_size(s[0]) + seq_size(s.drop_first()));
    }
}

fn insert_pos(v: &Vec<&FsEntry>, e: &FsEntry) -> (j: usize)
    ensures
        0 <= j <= v@.len(),
        forall|k: int| 0 <= k < j ==> listing_le(deref_seq(v@)[k], *e),
        j < v@.len() ==> !listing_le(deref_seq(v@)[j as int], *e),
{
    let mut j: usize = 0;
    while j < v.len()
        invariant
            0 <= j <= v@.len(),
            forall|k: int| 0 <= k < j ==> listing_le(deref_seq(v@)[k], *e),
        decreases v@.len() - j,
    {
        if !entry_le(v[j], e) {
            return j;
        }
        j += 1;
    }
    j
}

proof fn lemma_insert_split(s: Seq<FsEntry>, e: FsEntry, j: int)
    requires
        0 <= j <= s.len(),
        forall|k: int| 0 <= k < j ==> listing_le(s[k], e),
        j < s.len() ==> !listing_le(s[j], e),
    ensures
        spec_insert(s, e) == s.subrange(0, j) + seq![e] + s.subrange(j, s.len() as int),
    decreases j, s.len(),
{
    if j == 0 {
        if s.len() == 0 {
            assert(spec_insert(s, e) =~= s.subrange(0, 0) + seq![e] + s.subrange(0, 0));
        } else {
            assert(!listing_le(s[0], e));
            assert(spec_insert(s, e) =~= s.subrange(0, 0) + seq![e] + s.subrange(
                0,
                s.len() as int,
            ));
        }
    } else {
        assert(listing_le(s[0], e));
        lemma_insert_split(s.drop_first(), e, j - 1);
        assert(spec_insert(s, e) == seq![s[0]] + spec_insert(s.drop_first(), e));
        assert(seq![s[0]] + (s.drop_first().subrange(0, j - 1) + seq![e]
            + s.drop_first().subrange(j - 1, s.len() - 1)) =~= s.subrange(0, j) + seq![e]
            + s.subrange(j, s.len() as int));
    }
}

fn insert_sorted<'a>(v: &mut Vec<&'a FsEntry>, e: &'a FsEntry)
    ensures
        deref_seq(final(v)@) == spec_insert(deref_seq(old(v)@), *e),
{
    let ghost s0 = deref_seq(v@);
    let j = insert_pos(v, e);
    proof {
        lemma_insert_split(s0, *e, j as int);
    }
    v.insert(j, e);
    proof {
        assert(deref_seq(v@) =~= s0.subrange(0, j as int) + seq![*e] + s0.subrange(
            j as int,
            s0.len() as int,
        ));
    }
}

/// Sorts a directory listing into rendering order.
fn sort_refs<'a>(v: &Vec<&'a FsEntry>) -> (r: Vec<&'a FsEntry>)
    ensures
        deref_seq(r@) == spec_sort(deref_seq(v@)),
{
    let mut r: Vec<&FsEntry> = Vec::new();
    let mut i: usize = 0;
    proof {
        assert(deref_seq(r@) =~= Seq::<FsEntry>::empty());
        assert(deref_seq(v@.take(0)) =~= Seq::<FsEntry>::empty());
    }
    while i < v.len()
        invariant
            0 <= i <= v@.len(),
            deref_seq(r@) == spec_sort(deref_seq(v@.take(i as int))),
        decreases v@.len() - i,
    {
        let e = v[i];
        proof {
            let t = deref_seq(v@.take(i + 1));
            assert(t.drop_last() =~= deref_seq(v@.take(i as int)));
            assert(t.last() == *e);
        }
        insert_sorted(&mut r, e);
        i += 1;
    }
    proof {
        assert(v@.take(v@.len() as int) =~= v@);
    }
    r
}

/// Each listing entry comes no later than its neighbour: directories before
/// files, names ascending within each group.
pub open spec fn sorted_listing(s: Seq<FsEntry>) -> bool {
    forall|i: int| #![trigger s[i], s[i + 1]] 0 <= i < s.len() - 1 ==> listing_le(s[i], s[i + 1])
}

pub proof fn lemma_lex_le_total(a: Seq<char>, b: Seq<char>)
    ensures
        lex_le(a, b) || lex_le(b, a),
    decreases a.len(),
{
    if a.len() == 0 {
    } else if b.len() == 0 {
    } else if a[0] == b[0] {
        lemma_lex_le_total(a.drop_first(), b.drop_first());
    } else {
        assert((a[0] as int) != (b[0] as int));
    }
}

pub proof fn lemma_listing_le_total(a: FsEntry, b: FsEntry)
    ensures
        listing_le(a, b) || listing_le(b, a),
{
    lemma_lex_le_total(a.name@, b.name@);
}

proof fn lemma_insert_sorted(s: Seq<FsEntry>, e: FsEntry)
    requires
        sorted_listing(s),
    ensures
        sorted_listing(spec_insert(s, e)),
    decreases s.len(),
{
    if s.len() == 0 {
        assert(sorted_listing(seq![e]));
    } else if listing_le(s[0], e) {
        assert(sorted_listing(s.drop_first())) by {
            assert forall|i: int| #![trigger s.drop_first()[i], s.drop_first()[i + 1]]
                0 <= i < s.drop_first().len() - 1 implies listing_le(
                s.drop_first()[i],
                s.drop_first()[i + 1],
            ) by {
                assert(s[i + 1] == s.drop_first()[i]);
                assert(s[i + 2] == s.drop_first()[i + 1]);
            }
        }
        lemma_insert_sorted(s.drop_first(), e);
        let ins = spec_insert(s.drop_first(), e);
        let t = seq![s[0]] + ins;
        assert(listing_le(s[0], ins[0])) by {
            if s.drop_first().len() == 0 {
                assert(ins[0] == e);
            } else if listing_le(s.drop_first()[0], e) {
                assert(ins[0] == s.drop_first()[0]);
                assert(s[1] == s.drop_first()[0]);
            } else {
                assert(ins[0] == e);
            }
        }
        assert forall|i: int| #![trigger t[i], t[i + 1]] 0 <= i < t.len() - 1 implies listing_le(
            t[i],
            t[i + 1],
        ) by {
            if i == 0 {
                assert(t[0] == s[0] && t[1] == ins[0]);
            } else {
                assert(t[i] == ins[i - 1] && t[i + 1] == ins[i]);
            }
        }
    } else {
        lemma_listing_le_total(s[0], e);
        let t = seq![e] + s;
        assert forall|i: int| #![trigger t[i], t[i + 1]] 0 <= i < t.len() - 1 implies listing_le(
            t[i],
            t[i + 1],
        ) by {
            if i == 0 {
                assert(t[0] == e && t[1] == s[0]);
            } else {
                let j = i - 1;
                assert(t[i] == s[j] && t[i + 1] == s[j + 1]);
                assert(listing_le(s[j], s[j + 1]));
            }
        }
    }
}

proof fn lemma_insert_multiset(s: Seq<FsEntry>, e: FsEntry)
    ensures
        spec_insert(s, e).to_multiset() == s.to_multiset().insert(e),
    decreases s.len(),
{
    if s.len() == 0 {
        assert(seq![e] =~= Seq::<FsEntry>::empty().push(e));
        Seq::<FsEntry>::empty().to_multiset_ensures();
        assert(s =~= Seq::<FsEntry>::empty());
    } else if listing_le(s[0], e) {
        lemma_insert_multiset(s.drop_first(), e);
        vstd::seq_lib::lemma_multiset_commutative(seq![s[0]], spec_insert(s.drop_first(), e));
        vstd::seq_lib::lemma_multiset_commutative(seq![s[0]], s.drop_first());
        assert(s =~= seq![s[0]] + s.drop_first());
        assert(spec_insert(s, e).to_multiset() =~= s.to_multiset().insert(e));
    } else {
        vstd::seq_lib::lemma_multiset_commutative(seq![e], s);
        assert(seq![e] =~= Seq::<FsEntry>::empty().push(e));
        Seq::<FsEntry>::empty().to_multiset_ensures();
        assert(spec_insert(s, e).to_multiset() =~= s.to_multiset().insert(e));
    }
}

/// Law: sorting a listing keeps exactly its entries and leaves them in
/// listing order: directories before files, names ascending in each group.
pub proof fn lemma_sort_order(s: Seq<FsEntry>)
    ensures
        spec_sort(s).to_multiset() == s.to_multiset(),
        sorted_listing(spec_sort(s)),
    decreases s.len(),
{
    if s.len() == 0 {
        assert(sorted_listing(spec_sort(s)));
        assert(s =~= Seq::<FsEntry>::empty());
        assert(spec_sort(s) == s);
    } else {
        lemma_sort_order(s.drop_last());
        lemma_insert_sorted(spec_sort(s.drop_last()), s.last());
        lemma_insert_multiset(spec_sort(s.drop_last()), s.last());
        s.drop_last().to_multiset_ensures();
        assert(s =~= s.drop_last().push(s.last()));
        assert(s.drop_last().push(s.last()).to_multiset() == s.drop_last().to_multiset().insert(
            s.last(),
        ));
        assert(spec_sort(s) == spec_insert(spec_sort(s.drop_last()), s.last()));
        assert(spec_sort(s).to_multiset() == s.drop_last().to_multiset().insert(s.last()));
    }
}

/// The children of one directory that the tree will consider, in rendering
/// order: the output artifact dropped, the rest sorted.
pub open spec fn spec_listing(children: Seq<FsEntry>, parent: Seq<char>, out: Option<Seq<char>>) -> Seq<
    FsEntry,
> {
    spec_sort(spec_keep(children, parent, out))
}

/// Drops the output-artifact entry of one directory listing, then sorts it.
pub fn listing_refs<'a>(
    children: &'a Vec<FsEntry>,
    parent: &String,
    out: &Option<String>,
) -> (r: Vec<&'a FsEntry>)
    ensures
        deref_seq(r@) == spec_listing(children@, parent@, out.deep_view()),
{
    let mut kept: Vec<&FsEntry> = Vec::new();
    let mut i: usize = 0;
    proof {
        assert(deref_seq(kept@) =~= Seq::<FsEntry>::empty());
        assert(children@.skip(0) =~= children@);
    }
    while i < children.len()
        invariant
            0 <= i <= children@.len(),
            spec_keep(children@, parent@, out.deep_view()) == deref_seq(kept@) + spec_keep(
                children@.skip(i as int),
                parent@,
                out.deep_view(),
            ),
        decreases children@.len() - i,
    {
        let e = &children[i];
        let keep = match out {
            Option::Some(o) => {
                let rel = join_rel(parent, &e.name);
                !rel.eq(o)
            },
            Option::None => true,
        };
        proof {
            let suf = children@.skip(i as int);
            assert(suf[0] == children@[i as int]);
            assert(suf.drop_first() =~= children@.skip(i + 1));
            assert(keep == keep_entry(parent@, out.deep_view(), children@[i as int]));
        }
        if keep {
            let ghost old_kept = deref_seq(kept@);
            kept.push(e);
            proof {
                assert(deref_seq(kept@) =~= old_kept.push(children@[i as int]));
                assert(old_kept + (seq![children@[i as int]] + spec_keep(
                    children@.skip(i + 1),
                    parent@,
                    out.deep_view(),
                )) =~= deref_seq(kept@) + spec_keep(children@.skip(i + 1), parent@, out.deep_view()));
            }
        }
        i += 1;
    }
    proof {
        assert(children@.skip(children@.len() as int) =~= Seq::<FsEntry>::empty());
        assert(deref_seq(kept@) + Seq::<FsEntry>::empty() =~= deref_seq(kept@));
    }
    sort_refs(&kept)
}

} // verus!
