use vstd::prelude::*;

use crate::errors::SearchError;

verus! {

/// One entry of a directory listing, as handed in by the driver:
/// the entry's full path and whether it is itself a directory.
pub struct DirEntry {
    pub path: String,
    pub is_dir: bool,
}

/// The views of a sequence of owned path strings.
pub open spec fn path_views(v: Seq<String>) -> Seq<Seq<char>> {
    v.map_values(|s: String| s@)
}

/// The paths of the non-directory entries of one listing, in listing order.
pub open spec fn listing_files(entries: Seq<DirEntry>) -> Seq<Seq<char>>
    decreases entries.len(),
{
    if entries.len() == 0 {
        Seq::empty()
    } else {
        let rest = listing_files(entries.drop_last());
        if entries.last().is_dir {
            rest
        } else {
            rest.push(entries.last().path@)
        }
    }
}

/// The paths of the directory entries of one listing, in listing order.
pub open spec fn listing_dirs(entries: Seq<DirEntry>) -> Seq<Seq<char>>
    decreases entries.len(),
{
    if entries.len() == 0 {
        Seq::empty()
    } else {
        let rest = listing_dirs(entries.drop_last());
        if entries.last().is_dir {
            rest.push(entries.last().path@)
        } else {
            rest
        }
    }
}

/// All file paths of a sequence of directory listings, in the order the
/// listings were recorded.
pub open spec fn walk_files(trace: Seq<Seq<DirEntry>>) -> Seq<Seq<char>>
    decreases trace.len(),
{
    if trace.len() == 0 {
        Seq::empty()
    } else {
        walk_files(trace.drop_last()) + listing_files(trace.last())
    }
}

/// An element occurs in a concatenation exactly when it occurs in one part.
proof fn lemma_add_contains<A>(a: Seq<A>, b: Seq<A>, x: A)
    ensures
        (a + b).contains(x) <==> a.contains(x) || b.contains(x),
{
    if a.contains(x) {
        let i = choose|i: int| 0 <= i < a.len() && a[i] == x;
        assert((a + b)[i] == x);
    }
    if b.contains(x) {
        let i = choose|i: int| 0 <= i < b.len() && b[i] == x;
        assert((a + b)[a.len() + i] == x);
    }
    if (a + b).contains(x) {
        let i = choose|i: int| 0 <= i < (a + b).len() && (a + b)[i] == x;
        if i < a.len() {
            assert(a[i] == x);
        } else {
            assert(b[i - a.len()] == x);
        }
    }
}

/// A path is among the files of one listing exactly when some
/// non-directory entry of that listing carries it.
pub proof fn lemma_listing_files_membership(entries: Seq<DirEntry>)
    ensures
        forall|p: Seq<char>|
            #[trigger] listing_files(entries).contains(p) <==> exists|j: int|
                0 <= j < entries.len() && !(#[trigger] entries[j]).is_dir && entries[j].path@ == p,
    decreases entries.len(),
{
    if entries.len() > 0 {
        let prefix = entries.drop_last();
        lemma_listing_files_membership(prefix);
        let rest = listing_files(prefix);
        let cur = listing_files(entries);
        assert(forall|j: int| 0 <= j < prefix.len() ==> prefix[j] == entries[j]);
        assert forall|p: Seq<char>| #[trigger] cur.contains(p) implies exists|j: int|
            0 <= j < entries.len() && !(#[trigger] entries[j]).is_dir && entries[j].path@
                == p by {
            let i = choose|i: int| 0 <= i < cur.len() && cur[i] == p;
            if !entries.last().is_dir && i == rest.len() {
                assert(!entries[entries.len() - 1].is_dir);
                assert(entries[entries.len() - 1].path@ == p);
            } else {
                assert(rest[i] == p);
                assert(rest.contains(p));
                let j = choose|j: int|
                    0 <= j < prefix.len() && !(#[trigger] prefix[j]).is_dir && prefix[j].path@
                        == p;
                assert(!entries[j].is_dir && entries[j].path@ == p);
            }
        }
        assert forall|p: Seq<char>|
            (exists|j: int|
                0 <= j < entries.len() && !(#[trigger] entries[j]).is_dir && entries[j].path@
                    == p) implies cur.contains(p) by {
            let j = choose|j: int|
                0 <= j < entries.len() && !(#[trigger] entries[j]).is_dir && entries[j].path@
                    == p;
            if j < entries.len() - 1 {
                assert(!prefix[j].is_dir && prefix[j].path@ == p);
                assert(rest.contains(p));
                let i = choose|i: int| 0 <= i < rest.len() && rest[i] == p;
                assert(cur[i] == p);
            } else {
                assert(!entries.last().is_dir);
                assert(cur[cur.len() - 1] == p);
            }
        }
    }
}

/// Law: exactness of the walk. A path is among the collected files exactly
/// when some recorded listing holds a non-directory entry with that path:
/// every regular file seen is collected, and no directory path ever is.
pub proof fn lemma_walk_files_exact(trace: Seq<Seq<DirEntry>>)
    ensures
        forall|p: Seq<char>|
            #[trigger] walk_files(trace).contains(p) <==> exists|k: int, j: int|
                0 <= k < trace.len() && 0 <= j < trace[k].len() && !(#[trigger] trace[k][j]).is_dir
                    && trace[k][j].path@ == p,
    decreases trace.len(),
{
    if trace.len() > 0 {
        let prefix = trace.drop_last();
        lemma_walk_files_exact(prefix);
        lemma_listing_files_membership(trace.last());
        let a = walk_files(prefix);
        let b = listing_files(trace.last());
        assert(forall|k: int| 0 <= k < prefix.len() ==> prefix[k] == trace[k]);
        assert forall|p: Seq<char>| #[trigger] walk_files(trace).contains(p) implies exists|
            k: int,
            j: int,
        |
            0 <= k < trace.len() && 0 <= j < trace[k].len() && !(#[trigger] trace[k][j]).is_dir
                && trace[k][j].path@ == p by {
            lemma_add_contains(a, b, p);
            if a.contains(p) {
                let (k, j) = choose|k: int, j: int|
                    0 <= k < prefix.len() && 0 <= j < prefix[k].len() && !(#[trigger] prefix[k][j]).is_dir
                        && prefix[k][j].path@ == p;
                assert(!trace[k][j].is_dir && trace[k][j].path@ == p);
            } else {
                assert(b.contains(p));
                let j = choose|j: int|
                    0 <= j < trace.last().len() && !(#[trigger] trace.last()[j]).is_dir
                        && trace.last()[j].path@ == p;
                assert(!trace[trace.len() - 1][j].is_dir && trace[trace.len() - 1][j].path@ == p);
            }
        }
        assert forall|p: Seq<char>|
            (exists|k: int, j: int|
                0 <= k < trace.len() && 0 <= j < trace[k].len() && !(#[trigger] trace[k][j]).is_dir
                    && trace[k][j].path@ == p) implies walk_files(trace).contains(p) by {
            lemma_add_contains(a, b, p);
            let (k, j) = choose|k: int, j: int|
                0 <= k < trace.len() && 0 <= j < trace[k].len() && !(#[trigger] trace[k][j]).is_dir
                    && trace[k][j].path@ == p;
            if k < trace.len() - 1 {
                assert(!prefix[k][j].is_dir && prefix[k][j].path@ == p);
                assert(a.contains(p));
            } else {
                assert(!trace.last()[j].is_dir && trace.last()[j].path@ == p);
                assert(b.contains(p));
            }
        }
    }
}

/// Whether no two entries anywhere in the recorded listings share a path,
/// as listings of distinct directories on a real filesystem never do.
pub open spec fn entry_paths_distinct(trace: Seq<Seq<DirEntry>>) -> bool {
    forall|k1: int, j1: int, k2: int, j2: int|
        0 <= k1 < trace.len() && 0 <= j1 < trace[k1].len() && 0 <= k2 < trace.len() && 0 <= j2
            < trace[k2].len() && (k1 != k2 || j1 != j2) ==> (#[trigger] trace[k1][j1]).path@ != (
        #[trigger] trace[k2][j2]).path@
}

/// The files of one listing with pairwise-distinct paths hold no duplicate.
proof fn lemma_listing_files_no_duplicates(entries: Seq<DirEntry>)
    requires
        forall|j1: int, j2: int|
            0 <= j1 < entries.len() && 0 <= j2 < entries.len() && j1 != j2 ==> (
            #[trigger] entries[j1]).path@ != (#[trigger] entries[j2]).path@,
    ensures
        listing_files(entries).no_duplicates(),
    decreases entries.len(),
{
    if entries.len() > 0 {
        let prefix = entries.drop_last();
        assert(forall|j: int| 0 <= j < prefix.len() ==> prefix[j] == entries[j]);
        lemma_listing_files_no_duplicates(prefix);
        let rest = listing_files(prefix);
        let cur = listing_files(entries);
        if !entries.last().is_dir {
            lemma_listing_files_membership(prefix);
            if rest.contains(entries.last().path@) {
                let j = choose|j: int|
                    0 <= j < prefix.len() && !(#[trigger] prefix[j]).is_dir && prefix[j].path@
                        == entries.last().path@;
                assert(entries[j].path@ == entries[entries.len() - 1].path@);
                assert(false);
            }
            assert forall|i1: int, i2: int|
                0 <= i1 < cur.len() && 0 <= i2 < cur.len() && i1 != i2 implies cur[i1]
                != cur[i2] by {
                if i1 < rest.len() && i2 < rest.len() {
                    assert(cur[i1] == rest[i1] && cur[i2] == rest[i2]);
                } else if i1 < rest.len() {
                    assert(rest[i1] == cur[i1]);
                    assert(rest.contains(rest[i1]));
                } else {
                    assert(rest[i2] == cur[i2]);
                    assert(rest.contains(rest[i2]));
                }
            }
        }
    }
}

/// Law: uniqueness of the walk. When no two entries of the recorded
/// listings share a path, every collected file path appears exactly once.
pub proof fn lemma_walk_files_no_duplicates(trace: Seq<Seq<DirEntry>>)
    requires
        entry_paths_distinct(trace),
    ensures
        walk_files(trace).no_duplicates(),
    decreases trace.len(),
{
    if trace.len() > 0 {
        let prefix = trace.drop_last();
        assert(forall|k: int| 0 <= k < prefix.len() ==> prefix[k] == trace[k]);
        assert forall|k1: int, j1: int, k2: int, j2: int|
            0 <= k1 < prefix.len() && 0 <= j1 < prefix[k1].len() && 0 <= k2 < prefix.len() && 0
                <= j2 < prefix[k2].len() && (k1 != k2 || j1 != j2) implies (
        #[trigger] prefix[k1][j1]).path@ != (#[trigger] prefix[k2][j2]).path@ by {
            assert(trace[k1][j1] == prefix[k1][j1] && trace[k2][j2] == prefix[k2][j2]);
        }
        lemma_walk_files_no_duplicates(prefix);
        let last = trace.last();
        assert forall|j1: int, j2: int|
            0 <= j1 < last.len() && 0 <= j2 < last.len() && j1 != j2 implies (
        #[trigger] last[j1]).path@ != (#[trigger] last[j2]).path@ by {
            assert(trace[trace.len() - 1][j1] == last[j1] && trace[trace.len() - 1][j2]
                == last[j2]);
        }
        lemma_listing_files_no_duplicates(last);
        lemma_walk_files_exact(prefix);
        lemma_listing_files_membership(last);
        let a = walk_files(prefix);
        let b = listing_files(last);
        assert forall|i: int, j: int| 0 <= i < a.len() && 0 <= j < b.len() implies a[i] != b[j] by {
            if a[i] == b[j] {
                let p = a[i];
                assert(a.contains(p) && b.contains(p));
                let (k1, j1) = choose|k1: int, j1: int|
                    0 <= k1 < prefix.len() && 0 <= j1 < prefix[k1].len() && !(
                    #[trigger] prefix[k1][j1]).is_dir && prefix[k1][j1].path@ == p;
                let j2 = choose|j2: int|
                    0 <= j2 < last.len() && !(#[trigger] last[j2]).is_dir && last[j2].path@ == p;
                assert(trace[k1][j1].path@ == p && trace[trace.len() - 1][j2].path@ == p);
                assert(false);
            }
        }
        vstd::seq_lib::lemma_no_dup_in_concat(a, b);
    }
}

/// The traversal state of a search run: the directories still to be listed
/// (a work-list, taken last-in first-out) and the regular files collected
/// so far. The driver around the library pops a pending directory, lists it
/// on the real filesystem, and records the outcome here; every decision
/// about what to collect and where to descend is made in this type.
pub struct Walker {
    pending: Vec<String>,
    files: Vec<String>,
    trace: Ghost<Seq<Seq<DirEntry>>>,
}

impl Walker {
    /// The directory listings recorded so far, in order.
    pub closed spec fn trace(self) -> Seq<Seq<DirEntry>> {
        self.trace@
    }

    /// The directories still waiting to be listed.
    pub closed spec fn pending_view(self) -> Seq<Seq<char>> {
        path_views(self.pending@)
    }

    /// The file paths collected so far.
    pub closed spec fn files_view(self) -> Seq<Seq<char>> {
        path_views(self.files@)
    }

    /// Invariant: the collected files are exactly the non-directory entries
    /// of the recorded listings, in recording order.
    pub open spec fn wf(self) -> bool {
        self.files_view() == walk_files(self.trace())
    }

    /// Starts a walk at `root`: no listing recorded yet, no file collected,
    /// and the root the only pending directory.
    pub fn new(root: String) -> (w: Walker)
        ensures
            w.wf(),
            w.trace() == Seq::<Seq<DirEntry>>::empty(),
            w.pending_view() =~= seq![root@],
            w.files_view() == Seq::<Seq<char>>::empty(),
    {
        let mut pending: Vec<String> = Vec::new();
        pending.push(root);
        let w = Walker { pending, files: Vec::new(), trace: Ghost(Seq::empty()) };
        proof {
            assert(w.files_view() =~= Seq::<Seq<char>>::empty());
        }
        w
    }

    /// Takes the next directory to be listed, if any is left.
    pub fn next_dir(&mut self) -> (r: Option<String>)
        ensures
            final(self).trace() == old(self).trace(),
            final(self).files_view() == old(self).files_view(),
            old(self).pending_view().len() == 0 ==> r is None && final(self).pending_view() == old(
                self,
            ).pending_view(),
            old(self).pending_view().len() > 0 ==> (r matches Some(d) && d@ == old(
                self,
            ).pending_view().last() && final(self).pending_view() =~= old(
                self,
            ).pending_view().drop_last()),
            old(self).wf() ==> final(self).wf(),
    {
        let r = self.pending.pop();
        proof {
            if old(self).pending@.len() > 0 {
                assert(path_views(self.pending@) =~= path_views(old(self).pending@).drop_last());
            }
        }
        r
    }

    /// Records the outcome of listing one directory. `None` means the
    /// directory could not be listed, which fails the walk with
    /// `DirectoryUnreadable` and leaves the state unchanged. A listing
    /// appends each entry's path to the pending directories or to the
    /// collected files, in listing order.
    pub fn record_listing(&mut self, listing: Option<Vec<DirEntry>>) -> (r: Result<
        (),
        SearchError,
    >)
        ensures
            listing is None ==> {
                &&& r == Err::<(), SearchError>(SearchError::DirectoryUnreadable)
                &&& final(self).trace() == old(self).trace()
                &&& final(self).pending_view() == old(self).pending_view()
                &&& final(self).files_view() == old(self).files_view()
            },
            listing matches Some(entries) ==> {
                &&& r == Ok::<(), SearchError>(())
                &&& final(self).trace() == old(self).trace().push(entries@)
                &&& final(self).pending_view() == old(self).pending_view() + listing_dirs(entries@)
                &&& final(self).files_view() == old(self).files_view() + listing_files(entries@)
            },
            old(self).wf() ==> final(self).wf(),
    {
        let entries = match listing {
            Option::None => {
                return Err(SearchError::DirectoryUnreadable);
            },
            Option::Some(entries) => entries,
        };
        let ghost pending0 = path_views(self.pending@);
        let ghost files0 = path_views(self.files@);
        let n = entries.len();
        let mut i: usize = 0;
        while i < n
            invariant
                n == entries@.len(),
                i <= n,
                self.trace@ == old(self).trace@,
                path_views(self.pending@) == pending0 + listing_dirs(entries@.take(i as int)),
                path_views(self.files@) == files0 + listing_files(entries@.take(i as int)),
            decreases n - i,
        {
            let ghost pvs = path_views(self.pending@);
            let ghost fvs = path_views(self.files@);
            proof {
                assert(entries@.take(i + 1).drop_last() =~= entries@.take(i as int));
                assert(entries@.take(i + 1).last() == entries@[i as int]);
            }
            let e = &entries[i];
            if e.is_dir {
                self.pending.push(e.path.clone());
                proof {
                    assert(listing_dirs(entries@.take(i + 1)) == listing_dirs(
                        entries@.take(i as int),
                    ).push(entries@[i as int].path@));
                    assert(listing_files(entries@.take(i + 1)) == listing_files(
                        entries@.take(i as int),
                    ));
                    assert(path_views(self.pending@) =~= pvs.push(entries@[i as int].path@));
                    assert(pvs.push(entries@[i as int].path@) =~= pending0 + listing_dirs(
                        entries@.take(i + 1),
                    ));
                }
            } else {
                self.files.push(e.path.clone());
                proof {
                    assert(listing_files(entries@.take(i + 1)) == listing_files(
                        entries@.take(i as int),
                    ).push(entries@[i as int].path@));
                    assert(listing_dirs(entries@.take(i + 1)) == listing_dirs(
                        entries@.take(i as int),
                    ));
                    assert(path_views(self.files@) =~= fvs.push(entries@[i as int].path@));
                    assert(fvs.push(entries@[i as int].path@) =~= files0 + listing_files(
                        entries@.take(i + 1),
                    ));
                }
            }
            i += 1;
        }
        proof {
            assert(entries@.take(n as int) =~= entries@);
            self.trace@ = old(self).trace@.push(entries@);
            assert(self.trace@.drop_last() =~= old(self).trace@);
            assert(self.trace@.last() == entries@);
        }
        Ok(())
    }

    /// Hands out the collected file list: exactly the files of the
    /// recorded listings, in discovery order.
    pub fn into_files(self) -> (files: Vec<String>)
        requires
            self.wf(),
        ensures
            path_views(files@) == walk_files(self.trace()),
    {
        self.files
    }
}

} // verus!
