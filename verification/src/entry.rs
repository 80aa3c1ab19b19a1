//! The manifest data model: one tracked file and its per-platform locations.
//!
//! A `Config` names a tracked file, the directory its canonical copy lives
//! in, and one `PlatformPath` per platform the file is synchronized to.
//! The location list is kept sorted by `(platform, path)` after every
//! insertion; insertion order is never observable.

use vstd::prelude::*;
use vstd::relations::{sorted_by, total_ordering};
use vstd::seq_lib::lemma_sorted_unique;
use vstd::seq_lib::lemma_multiset_commutative;
use crate::order::{seq_le, lemma_seq_le_refl, lemma_seq_le_total, lemma_seq_le_antisym,
    lemma_seq_le_trans, str_eq, str_le};

verus! {

/// On platform `platform`, the tracked file's directory is `path`.
#[derive(Debug, Clone, PartialEq)]
pub struct PlatformPath {
    pub platform: String,
    pub path: String,
}

/// The mathematical value of a `PlatformPath`: its two character sequences.
#[verifier::ext_equal]
pub struct PlatformPathView {
    pub platform: Seq<char>,
    pub path: Seq<char>,
}

impl View for PlatformPath {
    type V = PlatformPathView;

    open spec fn view(&self) -> PlatformPathView {
        PlatformPathView { platform: self.platform@, path: self.path@ }
    }
}

/// The location order as a function value, for use with ordering lemmas.
pub open spec fn loc_le_fn() -> spec_fn(PlatformPathView, PlatformPathView) -> bool {
    |a: PlatformPathView, b: PlatformPathView| loc_le(a, b)
}

/// The order locations are kept in: lexicographic by platform, then path.
pub open spec fn loc_le(a: PlatformPathView, b: PlatformPathView) -> bool {
    if a.platform == b.platform {
        seq_le(a.path, b.path)
    } else {
        seq_le(a.platform, b.platform)
    }
}

/// `loc_le` is a total order on location values.
pub proof fn lemma_loc_le_total_ordering()
    ensures
        total_ordering(|a: PlatformPathView, b: PlatformPathView| loc_le(a, b)),
{
    let leq = |a: PlatformPathView, b: PlatformPathView| loc_le(a, b);
    assert forall|a: PlatformPathView| #[trigger] leq(a, a) by {
        lemma_seq_le_refl(a.path);
    }
    assert forall|a: PlatformPathView, b: PlatformPathView| #[trigger] leq(a, b) && #[trigger]
        leq(b, a) implies a == b by {
        if a.platform == b.platform {
            lemma_seq_le_antisym(a.path, b.path);
            assert(a =~= b);
        } else {
            lemma_seq_le_antisym(a.platform, b.platform);
        }
    }
    assert forall|a: PlatformPathView, b: PlatformPathView, c: PlatformPathView| #[trigger] leq(
        a,
        b,
    ) && #[trigger] leq(b, c) implies leq(a, c) by {
        if a.platform == b.platform && b.platform == c.platform {
            lemma_seq_le_trans(a.path, b.path, c.path);
        } else if a.platform == b.platform {
            assert(seq_le(b.platform, c.platform));
        } else if b.platform == c.platform {
            assert(seq_le(a.platform, b.platform));
        } else {
            lemma_seq_le_trans(a.platform, b.platform, c.platform);
            if a.platform == c.platform {
                lemma_seq_le_antisym(a.platform, b.platform);
            }
        }
    }
    assert forall|a: PlatformPathView, b: PlatformPathView| #[trigger] leq(a, b) || #[trigger] leq(
        b,
        a,
    ) by {
        if a.platform == b.platform {
            lemma_seq_le_total(a.path, b.path);
        } else {
            lemma_seq_le_total(a.platform, b.platform);
        }
    }
}

/// Whether `a` comes no later than `b` in the location order.
pub fn loc_le_exec(a: &PlatformPath, b: &PlatformPath) -> (r: bool)
    ensures
        r == loc_le(a@, b@),
{
    if str_eq(a.platform.as_str(), b.platform.as_str()) {
        str_le(a.path.as_str(), b.path.as_str())
    } else {
        str_le(a.platform.as_str(), b.platform.as_str())
    }
}

/// Where a new location lands in a sorted location list: after every
/// location that compares no later than it.
pub open spec fn spec_insert_loc(ps: Seq<PlatformPathView>, nl: PlatformPathView) -> Seq<
    PlatformPathView,
>
    decreases ps.len(),
{
    if ps.len() == 0 {
        seq![nl]
    } else if loc_le(ps[0], nl) {
        seq![ps[0]] + spec_insert_loc(ps.drop_first(), nl)
    } else {
        seq![nl] + ps
    }
}

/// One tracked file: its base name, the directory of its canonical copy,
/// and its per-platform locations, kept sorted.
#[derive(Debug, Clone, PartialEq)]
pub struct Config {
    pub file: String,
    pub file_dir: String,
    pub paths: Vec<PlatformPath>,
}

/// The mathematical value of a `Config`.
#[verifier::ext_equal]
pub struct ConfigView {
    pub file: Seq<char>,
    pub file_dir: Seq<char>,
    pub paths: Seq<PlatformPathView>,
}

impl View for Config {
    type V = ConfigView;

    open spec fn view(&self) -> ConfigView {
        ConfigView {
            file: self.file@,
            file_dir: self.file_dir@,
            paths: self.paths@.map_values(|p: PlatformPath| p@),
        }
    }
}

impl Config {
    /// The location list is sorted; every constructor establishes this and
    /// every mutation preserves it.
    pub open spec fn wf(self) -> bool {
        sorted_by(self@.paths, |a: PlatformPathView, b: PlatformPathView| loc_le(a, b))
    }

    /// An entry with no file, no canonical directory and no locations.
    pub fn new() -> (r: Config)
        ensures
            r@.file =~= Seq::<char>::empty(),
            r@.file_dir =~= Seq::<char>::empty(),
            r@.paths =~= Seq::<PlatformPathView>::empty(),
            r.wf(),
    {
        let r = Config { file: String::new(), file_dir: String::new(), paths: Vec::new() };
        assert(r@.paths =~= Seq::<PlatformPathView>::empty());
        r
    }

    /// The same entry with its tracked file name set to `file`.
    pub fn with_file(self, file: &str) -> (r: Config)
        ensures
            r@.file == file@,
            r@.file_dir == self@.file_dir,
            r@.paths == self@.paths,
            self.wf() ==> r.wf(),
    {
        let mut c = self;
        c.file = file.to_owned();
        assert(c@.paths =~= self@.paths);
        c
    }

    /// The same entry with `{ platform, path }` added to its locations,
    /// placed so that the list stays sorted: after every location that
    /// compares no later than the new one.
    pub fn with_platform(self, platform: &str, path: &str) -> (r: Config)
        ensures
            r@.file == self@.file,
            r@.file_dir == self@.file_dir,
            r@.paths == spec_insert_loc(
                self@.paths,
                (PlatformPathView { platform: platform@, path: path@ }),
            ),
            self.wf() ==> r.wf(),
    {
        let new_loc = PlatformPath { platform: platform.to_owned(), path: path.to_owned() };
        let ghost nl = new_loc@;
        let ghost ps0 = self@.paths;
        let mut c = self;
        let n = c.paths.len();
        let mut i: usize = 0;
        assert(ps0.subrange(0, 0) + spec_insert_loc(ps0.skip(0), nl) =~= spec_insert_loc(
            ps0.skip(0),
            nl,
        ));
        assert(ps0.skip(0) =~= ps0);
        while i < n && loc_le_exec(&c.paths[i], &new_loc)
            invariant
                i <= n,
                n == c.paths.len(),
                c == self,
                nl == new_loc@,
                ps0 == self@.paths,
                spec_insert_loc(ps0, nl) == ps0.subrange(0, i as int) + spec_insert_loc(
                    ps0.skip(i as int),
                    nl,
                ),
            decreases n - i,
        {
            proof {
                assert(ps0.skip(i as int)[0] == ps0[i as int]);
                assert(loc_le(ps0[i as int], nl));
                assert(ps0.skip(i as int).drop_first() =~= ps0.skip(i + 1));
                assert(spec_insert_loc(ps0.skip(i as int), nl) == seq![ps0[i as int]]
                    + spec_insert_loc(ps0.skip(i + 1), nl));
                assert(ps0.subrange(0, i as int) + (seq![ps0[i as int]] + spec_insert_loc(
                    ps0.skip(i + 1),
                    nl,
                )) =~= ps0.subrange(0, (i + 1) as int) + spec_insert_loc(ps0.skip(i + 1), nl));
            }
            i = i + 1;
        }
        proof {
            if i == n {
                assert(ps0.skip(i as int).len() == 0);
                assert(spec_insert_loc(ps0.skip(i as int), nl) == seq![nl]);
            } else {
                assert(!loc_le(ps0[i as int], nl));
                assert(ps0.skip(i as int).len() > 0);
                assert(ps0.skip(i as int)[0] == ps0[i as int]);
                assert(spec_insert_loc(ps0.skip(i as int), nl) == seq![nl] + ps0.skip(i as int));
            }
        }
        c.paths.insert(i, new_loc);
        assert(c@.paths =~= ps0.insert(i as int, nl)) by {
            assert(c.paths@ =~= self.paths@.insert(i as int, new_loc));
            assert forall|k: int| 0 <= k < c@.paths.len() implies c@.paths[k] == ps0.insert(
                i as int,
                nl,
            )[k] by {
                assert(c@.paths[k] == c.paths@[k]@);
            }
        }
        assert(c@.paths =~= spec_insert_loc(ps0, nl)) by {
            assert(ps0.insert(i as int, nl) =~= ps0.subrange(0, i as int) + seq![nl] + ps0.skip(
                i as int,
            ));
            if i < n {
                assert(ps0.subrange(0, i as int) + seq![nl] + ps0.skip(i as int) =~= ps0.subrange(
                    0,
                    i as int,
                ) + (seq![nl] + ps0.skip(i as int)));
            } else {
                assert(ps0.subrange(0, i as int) + seq![nl] + ps0.skip(i as int) =~= ps0.subrange(
                    0,
                    i as int,
                ) + seq![nl]);
            }
        }
        proof {
            if self.wf() {
                lemma_insert_loc_sorted(ps0, nl);
            }
        }
        c
    }

    /// The same entry with a Windows location added.
    pub fn with_winpath(self, winpath: &str) -> (r: Config)
        ensures
            r@.file == self@.file,
            r@.file_dir == self@.file_dir,
            r@.paths == spec_insert_loc(
                self@.paths,
                (PlatformPathView { platform: "windows"@, path: winpath@ }),
            ),
            self.wf() ==> r.wf(),
    {
        self.with_platform("windows", winpath)
    }

    /// The same entry with a Mac OS location added.
    pub fn with_macpath(self, macpath: &str) -> (r: Config)
        ensures
            r@.file == self@.file,
            r@.file_dir == self@.file_dir,
            r@.paths == spec_insert_loc(
                self@.paths,
                (PlatformPathView { platform: "macos"@, path: macpath@ }),
            ),
            self.wf() ==> r.wf(),
    {
        self.with_platform("macos", macpath)
    }

    /// The same entry with a Linux location added.
    pub fn with_linuxpath(self, linuxpath: &str) -> (r: Config)
        ensures
            r@.file == self@.file,
            r@.file_dir == self@.file_dir,
            r@.paths == spec_insert_loc(
                self@.paths,
                (PlatformPathView { platform: "linux"@, path: linuxpath@ }),
            ),
            self.wf() ==> r.wf(),
    {
        self.with_platform("linux", linuxpath)
    }
}

/// Inserting into a sorted location list keeps it sorted.
pub proof fn lemma_insert_loc_sorted(ps: Seq<PlatformPathView>, nl: PlatformPathView)
    requires
        sorted_by(ps, |a: PlatformPathView, b: PlatformPathView| loc_le(a, b)),
    ensures
        sorted_by(
            spec_insert_loc(ps, nl),
            |a: PlatformPathView, b: PlatformPathView| loc_le(a, b),
        ),
    decreases ps.len(),
{
    let leq = |a: PlatformPathView, b: PlatformPathView| loc_le(a, b);
    lemma_loc_le_total_ordering();
    if ps.len() == 0 {
    } else if loc_le(ps[0], nl) {
        assert(sorted_by(ps.drop_first(), leq));
        lemma_insert_loc_sorted(ps.drop_first(), nl);
        let rest = spec_insert_loc(ps.drop_first(), nl);
        lemma_insert_loc_multiset(ps.drop_first(), nl);
        assert forall|j: int| 0 <= j < rest.len() implies leq(ps[0], rest[j]) by {
            assert(rest.to_multiset().contains(rest[j])) by {
                broadcast use vstd::seq_lib::group_to_multiset_ensures;

            }
            if rest[j] == nl {
            } else {
                assert(ps.drop_first().to_multiset().contains(rest[j])) by {
                    broadcast use vstd::multiset::group_multiset_axioms;

                }
                assert(ps.drop_first().contains(rest[j])) by {
                    broadcast use vstd::seq_lib::group_to_multiset_ensures;

                }
                let k = choose|k: int|
                    0 <= k < ps.drop_first().len() && ps.drop_first()[k] == rest[j];
                assert(leq(ps[0], ps[k + 1]));
            }
        }
    } else {
        lemma_seq_le_total(ps[0].platform, nl.platform);
        lemma_seq_le_total(ps[0].path, nl.path);
        assert(leq(nl, ps[0]));
        assert forall|j: int| 0 <= j < ps.len() implies leq(nl, ps[j]) by {
            if j > 0 {
                assert(leq(ps[0], ps[j]));
            }
        }
    }
}

/// Inserting a location adds exactly it to the collection of locations.
pub proof fn lemma_insert_loc_multiset(ps: Seq<PlatformPathView>, nl: PlatformPathView)
    ensures
        spec_insert_loc(ps, nl).to_multiset() == ps.to_multiset().insert(nl),
        spec_insert_loc(ps, nl).len() == ps.len() + 1,
    decreases ps.len(),
{
    broadcast use vstd::seq_lib::group_to_multiset_ensures;
    broadcast use vstd::multiset::group_multiset_axioms;

    if ps.len() == 0 {
        assert(seq![nl] =~= Seq::<PlatformPathView>::empty().push(nl));
        assert(spec_insert_loc(ps, nl).to_multiset() =~= ps.to_multiset().insert(nl));
    } else if loc_le(ps[0], nl) {
        lemma_insert_loc_multiset(ps.drop_first(), nl);
        let rest = spec_insert_loc(ps.drop_first(), nl);
        lemma_multiset_commutative(seq![ps[0]], rest);
        lemma_multiset_commutative(seq![ps[0]], ps.drop_first());
        assert(seq![ps[0]] + ps.drop_first() =~= ps);
        assert(spec_insert_loc(ps, nl).to_multiset() =~= ps.to_multiset().insert(nl));
    } else {
        lemma_multiset_commutative(seq![nl], ps);
        assert(seq![nl] =~= Seq::<PlatformPathView>::empty().push(nl));
        assert(spec_insert_loc(ps, nl).to_multiset() =~= ps.to_multiset().insert(nl));
    }
}

/// Folding a sequence of insertions into a location list, one at a time.
pub open spec fn insert_all(start: Seq<PlatformPathView>, locs: Seq<PlatformPathView>) -> Seq<
    PlatformPathView,
>
    decreases locs.len(),
{
    if locs.len() == 0 {
        start
    } else {
        insert_all(spec_insert_loc(start, locs[0]), locs.drop_first())
    }
}

/// After any sequence of insertions into a sorted list, the result is
/// sorted and holds exactly the old locations plus the inserted ones.
pub proof fn lemma_insert_all_sorted(start: Seq<PlatformPathView>, locs: Seq<PlatformPathView>)
    requires
        sorted_by(start, |a: PlatformPathView, b: PlatformPathView| loc_le(a, b)),
    ensures
        sorted_by(
            insert_all(start, locs),
            |a: PlatformPathView, b: PlatformPathView| loc_le(a, b),
        ),
        insert_all(start, locs).to_multiset() == start.to_multiset().add(locs.to_multiset()),
    decreases locs.len(),
{
    broadcast use vstd::seq_lib::group_to_multiset_ensures;
    broadcast use vstd::multiset::group_multiset_axioms;

    if locs.len() == 0 {
        assert(insert_all(start, locs).to_multiset() =~= start.to_multiset().add(
            locs.to_multiset(),
        ));
    } else {
        lemma_insert_loc_sorted(start, locs[0]);
        lemma_insert_loc_multiset(start, locs[0]);
        lemma_insert_all_sorted(spec_insert_loc(start, locs[0]), locs.drop_first());
        assert(locs =~= seq![locs[0]] + locs.drop_first());
        lemma_multiset_commutative(seq![locs[0]], locs.drop_first());
        assert(seq![locs[0]] =~= Seq::<PlatformPathView>::empty().push(locs[0]));
        assert(insert_all(start, locs).to_multiset() =~= start.to_multiset().add(
            locs.to_multiset(),
        ));
    }
}

/// The stored order after all insertions depends only on which locations
/// were inserted, never on the order they were inserted in: two insertion
/// sequences holding the same locations, starting from an empty list,
/// yield the same sorted list.
pub proof fn lemma_insertion_order_irrelevant(l1: Seq<PlatformPathView>, l2: Seq<PlatformPathView>)
    requires
        l1.to_multiset() == l2.to_multiset(),
    ensures
        insert_all(Seq::<PlatformPathView>::empty(), l1) == insert_all(
            Seq::<PlatformPathView>::empty(),
            l2,
        ),
        sorted_by(
            insert_all(Seq::<PlatformPathView>::empty(), l1),
            |a: PlatformPathView, b: PlatformPathView| loc_le(a, b),
        ),
        insert_all(Seq::<PlatformPathView>::empty(), l1) == l1.sort_by(loc_le_fn()),
{
    broadcast use vstd::multiset::group_multiset_axioms;

    let leq = loc_le_fn();
    let empty = Seq::<PlatformPathView>::empty();
    lemma_loc_le_total_ordering();
    assert(total_ordering(leq));
    lemma_insert_all_sorted(empty, l1);
    lemma_insert_all_sorted(empty, l2);
    assert(sorted_by(insert_all(empty, l1), leq));
    assert(sorted_by(insert_all(empty, l2), leq));
    assert(insert_all(empty, l1).to_multiset() =~= insert_all(empty, l2).to_multiset());
    lemma_sorted_unique(insert_all(empty, l1), insert_all(empty, l2), leq);
    assert(insert_all(empty, l1) =~= insert_all(empty, l2));
    l1.lemma_sort_by_ensures(leq);
    assert(insert_all(empty, l1).to_multiset() =~= l1.sort_by(leq).to_multiset()) by {
        broadcast use vstd::seq_lib::group_to_multiset_ensures;

        assert(forall|x: PlatformPathView| !empty.contains(x));
        assert(forall|x: PlatformPathView| empty.to_multiset().count(x) == 0);
        assert(l1.to_multiset() =~= l1.sort_by(leq).to_multiset());
    }
    lemma_sorted_unique(insert_all(empty, l1), l1.sort_by(leq), leq);
    assert(insert_all(empty, l1) =~= l1.sort_by(leq));
}


/// The mathematical values of a list of locations.
pub open spec fn locs_view(v: Seq<PlatformPath>) -> Seq<PlatformPathView> {
    v.map_values(|p: PlatformPath| p@)
}

/// The mathematical values of a list of entries.
pub open spec fn cfgs_view(v: Seq<Config>) -> Seq<ConfigView> {
    v.map_values(|c: Config| c@)
}

} // verus!
