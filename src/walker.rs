use std::collections::VecDeque;
use vstd::prelude::*;
use crate::query::{eligible_spec, Kind, SearchQuery};

verus! {

/// One entry of a directory listing: its full path, its base name, and
/// whether it is itself a directory.
#[derive(Clone, Debug)]
pub struct DirEntry {
    pub path: String,
    pub name: String,
    pub is_dir: bool,
}

/// The mathematical value of a [`DirEntry`].
pub struct EntryView {
    pub path: Seq<char>,
    pub name: Seq<char>,
    pub is_dir: bool,
}

impl View for DirEntry {
    type V = EntryView;

    open spec fn view(&self) -> EntryView {
        EntryView { path: self.path@, name: self.name@, is_dir: self.is_dir }
    }
}

/// A listing as a sequence of entry values.
pub open spec fn listing_view(v: Seq<DirEntry>) -> Seq<EntryView> {
    v.map_values(|e: DirEntry| e@)
}

/// A sequence of paths as character sequences.
pub open spec fn paths_view(v: Seq<String>) -> Seq<Seq<char>> {
    v.map_values(|s: String| s@)
}

/// All listings, one after the other, in the order they were visited.
pub open spec fn flatten_listings(ls: Seq<Seq<EntryView>>) -> Seq<EntryView>
    decreases ls.len(),
{
    if ls.len() == 0 {
        seq![]
    } else {
        flatten_listings(ls.drop_last()) + ls.last()
    }
}

/// The paths of the entries that are directories, in order.
pub open spec fn dir_paths(es: Seq<EntryView>) -> Seq<Seq<char>>
    decreases es.len(),
{
    if es.len() == 0 {
        seq![]
    } else {
        dir_paths(es.drop_last()) + if es.last().is_dir {
            seq![es.last().path]
        } else {
            seq![]
        }
    }
}

/// The paths of all entries, in order.
pub open spec fn entry_paths(es: Seq<EntryView>) -> Seq<Seq<char>> {
    es.map_values(|e: EntryView| e.path)
}

/// The paths of the entries that a search for `name` of `kind` reports, in order.
pub open spec fn hits(es: Seq<EntryView>, name: Seq<char>, kind: Kind) -> Seq<Seq<char>>
    decreases es.len(),
{
    if es.len() == 0 {
        seq![]
    } else {
        hits(es.drop_last(), name, kind) + if eligible_spec(
            es.last().name,
            es.last().is_dir,
            name,
            kind,
        ) {
            seq![es.last().path]
        } else {
            seq![]
        }
    }
}

/// Every directory the walk has put on its queue, in order: the root, then
/// each directory entry of the listings seen so far.
pub open spec fn discovered(root: Seq<char>, ls: Seq<Seq<EntryView>>) -> Seq<Seq<char>> {
    seq![root] + dir_paths(flatten_listings(ls))
}

/// Listing-wise, the reported paths of a concatenation are the concatenation
/// of the reported paths.
pub proof fn lemma_hits_append(a: Seq<EntryView>, b: Seq<EntryView>, name: Seq<char>, kind: Kind)
    ensures
        hits(a + b, name, kind) == hits(a, name, kind) + hits(b, name, kind),
    decreases b.len(),
{
    if b.len() == 0 {
        assert(a + b =~= a);
        assert(hits(a, name, kind) + hits(b, name, kind) =~= hits(a, name, kind));
    } else {
        assert((a + b).drop_last() =~= a + b.drop_last());
        assert((a + b).last() == b.last());
        lemma_hits_append(a, b.drop_last(), name, kind);
        let tail = if eligible_spec(b.last().name, b.last().is_dir, name, kind) {
            seq![b.last().path]
        } else {
            seq![]
        };
        assert(hits(a, name, kind) + hits(b.drop_last(), name, kind) + tail =~= hits(a, name, kind)
            + (hits(b.drop_last(), name, kind) + tail));
    }
}

/// The directory paths of a concatenation are the concatenation of the
/// directory paths.
pub proof fn lemma_dir_paths_append(a: Seq<EntryView>, b: Seq<EntryView>)
    ensures
        dir_paths(a + b) == dir_paths(a) + dir_paths(b),
    decreases b.len(),
{
    if b.len() == 0 {
        assert(a + b =~= a);
        assert(dir_paths(a) + dir_paths(b) =~= dir_paths(a));
    } else {
        assert((a + b).drop_last() =~= a + b.drop_last());
        assert((a + b).last() == b.last());
        lemma_dir_paths_append(a, b.drop_last());
        let tail = if b.last().is_dir {
            seq![b.last().path]
        } else {
            seq![]
        };
        assert(dir_paths(a) + dir_paths(b.drop_last()) + tail =~= dir_paths(a) + (dir_paths(
            b.drop_last(),
        ) + tail));
    }
}

/// A snapshot of a directory tree, from a directory's path to its listing.
pub type Snapshot = Map<Seq<char>, Seq<EntryView>>;

/// The listings `ls` are those that `fs` gives, each for the directory that
/// the walk visited at that step.
pub open spec fn fed_by(fs: Snapshot, root: Seq<char>, ls: Seq<Seq<EntryView>>) -> bool {
    forall|i: int|
        0 <= i < ls.len() ==> {
            &&& #[trigger] fs.contains_key(discovered(root, ls)[i])
            &&& ls[i] == fs[discovered(root, ls)[i]]
        }
}

/// The outcome of a search that found nothing.
#[derive(Clone, Debug)]
pub struct NotFound {
    pub kind: Kind,
    pub name: String,
}

impl NotFound {
    /// The text that reports this outcome: `File '<name>' not found`, or
    /// `Directory '<name>' not found`.
    pub fn message(&self) -> (r: String)
        ensures
            r@ == (if self.kind == Kind::File {
                "File '"@
            } else {
                "Directory '"@
            }) + self.name@ + "' not found"@,
    {
        let head = match self.kind {
            Kind::File => "File '".to_owned(),
            Kind::Directory => "Directory '".to_owned(),
        };
        head.concat(self.name.as_str()).concat("' not found")
    }
}

/// Breadth-first search state: the queue of directories still to expand and
/// the matches found so far. The caller lists the directory that
/// [`Walker::next_dir`] names and hands the listing to [`Walker::absorb`],
/// until the queue is empty.
pub struct Walker {
    frontier: VecDeque<String>,
    results: Vec<String>,
    query: SearchQuery,
    root: Ghost<Seq<char>>,
    listed: Ghost<Seq<Seq<EntryView>>>,
}

impl Walker {
    /// The directory the walk started from.
    pub closed spec fn root(&self) -> Seq<char> {
        self.root@
    }

    /// The listings handed in so far, in order.
    pub closed spec fn listed(&self) -> Seq<Seq<EntryView>> {
        self.listed@
    }

    /// The name searched for.
    pub closed spec fn query_name(&self) -> Seq<char> {
        self.query.name@
    }

    /// The kind of entry searched for.
    pub closed spec fn kind(&self) -> Kind {
        self.query.kind
    }

    /// The directories still to expand, in order.
    pub closed spec fn pending(&self) -> Seq<Seq<char>> {
        paths_view(self.frontier@)
    }

    /// The matching paths found so far, in order of discovery.
    pub closed spec fn found(&self) -> Seq<Seq<char>> {
        paths_view(self.results@)
    }

    /// Whether every discovered directory has been expanded.
    pub open spec fn done(&self) -> bool {
        self.listed().len() == discovered(self.root(), self.listed()).len()
    }

    /// What a search reports over the listings handed in so far.
    pub open spec fn matches_listed(&self) -> Seq<Seq<char>> {
        hits(flatten_listings(self.listed()), self.query_name(), self.kind())
    }

    /// The state agrees with the listings handed in so far.
    pub closed spec fn wf(&self) -> bool {
        &&& self.listed@.len() <= discovered(self.root@, self.listed@).len()
        &&& self.pending() == discovered(self.root@, self.listed@).skip(self.listed@.len() as int)
        &&& self.found() == hits(flatten_listings(self.listed@), self.query.name@, self.query.kind)
        &&& forall|j: int|
            0 <= j < self.listed@.len() ==> j < #[trigger] discovered(
                self.root@,
                self.listed@.take(j),
            ).len()
    }

    /// Starts a search from `root`: only `root` is queued, nothing found yet.
    pub fn new(root: String, query: SearchQuery) -> (w: Walker)
        ensures
            w.wf(),
            w.root() == root@,
            w.query_name() == query.name@,
            w.kind() == query.kind,
            w.listed() == Seq::<Seq<EntryView>>::empty(),
            w.pending() == seq![root@],
            w.found() == Seq::<Seq<char>>::empty(),
            w.found() == w.matches_listed(),
    {
        let ghost r = root@;
        let mut frontier: VecDeque<String> = VecDeque::new();
        frontier.push_back(root);
        let w = Walker {
            frontier,
            results: Vec::new(),
            query,
            root: Ghost(r),
            listed: Ghost(Seq::empty()),
        };
        proof {
            let ls = Seq::<Seq<EntryView>>::empty();
            assert(flatten_listings(ls) =~= Seq::<EntryView>::empty());
            assert(dir_paths(flatten_listings(ls)) =~= Seq::<Seq<char>>::empty());
            assert(discovered(r, ls) =~= seq![r]);
            assert(w.pending() =~= seq![r]);
            assert(w.found() =~= Seq::<Seq<char>>::empty());
            assert(discovered(r, ls).skip(0) =~= seq![r]);
        }
        w
    }

    /// The directory whose listing the walk needs next, or `None` once the
    /// search is complete.
    pub fn next_dir(&self) -> (r: Option<String>)
        requires
            self.wf(),
        ensures
            r is None <==> self.done(),
            r matches Some(d) ==> d@ == discovered(self.root(), self.listed())[self.listed().len() as int],
    {
        proof {
            assert(self.pending().len() == self.frontier@.len());
        }
        if self.frontier.len() == 0 {
            None
        } else {
            let d = self.frontier[0].clone();
            proof {
                assert(self.pending()[0] == self.frontier@[0]@);
                assert(self.pending()[0] == discovered(self.root@, self.listed@)[self.listed@.len() as int]);
            }
            Some(d)
        }
    }

    /// Whether the search is complete.
    pub fn is_done(&self) -> (r: bool)
        requires
            self.wf(),
        ensures
            r == self.done(),
    {
        proof {
            assert(self.pending().len() == self.frontier@.len());
        }
        self.frontier.len() == 0
    }

    /// Expands the directory that [`Walker::next_dir`] named, given its
    /// listing: the directories among the entries join the end of the queue
    /// and the eligible entries join the matches, both in listing order.
    pub fn absorb(&mut self, entries: Vec<DirEntry>)
        requires
            old(self).wf(),
            !old(self).done(),
        ensures
            final(self).wf(),
            final(self).root() == old(self).root(),
            final(self).query_name() == old(self).query_name(),
            final(self).kind() == old(self).kind(),
            final(self).listed() == old(self).listed().push(listing_view(entries@)),
            final(self).found() == final(self).matches_listed(),
            final(self).found() == old(self).found() + hits(
                listing_view(entries@),
                old(self).query_name(),
                old(self).kind(),
            ),
            final(self).pending() == old(self).pending().drop_first() + dir_paths(
                listing_view(entries@),
            ),
    {
        let ghost old_listed = self.listed@;
        let ghost root = self.root@;
        let ghost f = flatten_listings(old_listed);
        let ghost lv = listing_view(entries@);
        let ghost n = old_listed.len() as int;
        let ghost name = self.query.name@;
        let ghost kind = self.query.kind;
        let ghost old_pending = self.pending();
        let ghost old_found = self.found();
        proof {
            assert(self.pending().len() == self.frontier@.len());
            assert(f + lv.take(0) =~= f);
            assert(discovered(root, old_listed) == seq![root] + dir_paths(f));
            let rest = self.frontier@.subrange(1, self.frontier@.len() as int);
            assert forall|k: int| 0 <= k < rest.len() implies paths_view(rest)[k] == (seq![root]
                + dir_paths(f)).skip(n + 1)[k] by {
                assert(paths_view(rest)[k] == self.pending()[k + 1]);
            }
            assert(paths_view(rest) =~= (seq![root] + dir_paths(f)).skip(n + 1));
        }
        let _ = self.frontier.pop_front();
        let mut i: usize = 0;
        while i < entries.len()
            invariant
                0 <= i <= entries.len(),
                lv == listing_view(entries@),
                n == old_listed.len(),
                f == flatten_listings(old_listed),
                self.root@ == root,
                self.listed@ == old_listed,
                self.query.name@ == name,
                self.query.kind == kind,
                n + 1 <= (seq![root] + dir_paths(f + lv.take(i as int))).len(),
                paths_view(self.frontier@) == (seq![root] + dir_paths(f + lv.take(i as int))).skip(
                    n + 1,
                ),
                paths_view(self.results@) == hits(f + lv.take(i as int), name, kind),
            decreases entries.len() - i,
        {
            let e = &entries[i];
            let ghost before = f + lv.take(i as int);
            let ghost after = f + lv.take(i as int + 1);
            proof {
                assert(after.drop_last() =~= before);
                assert(after.last() == e@);
            }
            if self.query.admits(&e.name, e.is_dir) {
                self.results.push(e.path.clone());
            }
            let ghost fr = self.frontier@;
            if e.is_dir {
                self.frontier.push_back(e.path.clone());
                proof {
                    assert(paths_view(self.frontier@) =~= paths_view(fr).push(e.path@));
                }
            }
            proof {
                let d_before = seq![root] + dir_paths(before);
                let d_after = seq![root] + dir_paths(after);
                if e.is_dir {
                    assert(d_after =~= d_before.push(e.path@));
                    assert(n + 1 <= d_before.len());
                    assert(d_after.skip(n + 1).len() == d_before.skip(n + 1).len() + 1);
                    assert forall|k: int| 0 <= k < d_after.skip(n + 1).len() implies #[trigger] d_after.skip(
                        n + 1,
                    )[k] == d_before.skip(n + 1).push(e.path@)[k] by {
                        assert(d_after.skip(n + 1)[k] == d_after[k + n + 1]);
                    }
                    assert(d_after.skip(n + 1) =~= d_before.skip(n + 1).push(e.path@));
                } else {
                    assert(d_after =~= d_before);
                }
                assert(paths_view(self.results@) =~= hits(after, name, kind));
                assert(paths_view(self.frontier@) =~= (seq![root] + dir_paths(after)).skip(n + 1));
            }
            i += 1;
        }
        let ghost new_listed = old_listed.push(lv);
        self.listed = Ghost(new_listed);
        proof {
            assert(lv.take(lv.len() as int) =~= lv);
            assert(new_listed.drop_last() =~= old_listed);
            assert(flatten_listings(new_listed) == f + lv);
            assert forall|j: int| 0 <= j < new_listed.len() implies j < #[trigger] discovered(
                root,
                new_listed.take(j),
            ).len() by {
                if j < n {
                    assert(new_listed.take(j) =~= old_listed.take(j));
                } else {
                    assert(new_listed.take(j) =~= old_listed);
                }
            }
            lemma_hits_append(f, lv, name, kind);
            lemma_dir_paths_append(f, lv);
            assert(self.found() =~= old_found + hits(lv, name, kind));
            assert(self.pending() =~= old_pending.drop_first() + dir_paths(lv));
        }
    }

    /// Ends a complete search: the matches in order of discovery, or
    /// [`NotFound`] with the query's kind and name when there are none.
    pub fn finish(self) -> (r: Result<Vec<String>, NotFound>)
        requires
            self.wf(),
            self.done(),
        ensures
            r is Ok <==> self.found().len() > 0,
            r matches Ok(v) ==> paths_view(v@) == self.found(),
            r matches Err(e) ==> e.kind == self.kind() && e.name@ == self.query_name(),
    {
        proof {
            assert(self.found().len() == self.results@.len());
        }
        if self.results.len() == 0 {
            Err(NotFound { kind: self.query.kind, name: self.query.name })
        } else {
            Ok(self.results)
        }
    }
}

} // verus!

verus! {

proof fn lemma_flatten_append(x: Seq<Seq<EntryView>>, y: Seq<Seq<EntryView>>)
    ensures
        flatten_listings(x + y) == flatten_listings(x) + flatten_listings(y),
    decreases y.len(),
{
    if y.len() == 0 {
        assert(x + y =~= x);
        assert(flatten_listings(y) =~= Seq::<EntryView>::empty());
        assert(flatten_listings(x) + flatten_listings(y) =~= flatten_listings(x));
    } else {
        assert((x + y).drop_last() =~= x + y.drop_last());
        assert((x + y).last() == y.last());
        lemma_flatten_append(x, y.drop_last());
        assert(flatten_listings(x) + flatten_listings(y.drop_last()) + y.last() =~= flatten_listings(
            x,
        ) + (flatten_listings(y.drop_last()) + y.last()));
    }
}

/// The queue built from the first `j` listings is a prefix of the queue
/// built from all of them.
proof fn lemma_discovered_prefix(root: Seq<char>, ls: Seq<Seq<EntryView>>, j: int, i: int)
    requires
        0 <= j <= ls.len(),
        0 <= i < discovered(root, ls.take(j)).len(),
    ensures
        i < discovered(root, ls).len(),
        discovered(root, ls.take(j))[i] == discovered(root, ls)[i],
{
    assert(ls =~= ls.take(j) + ls.skip(j));
    lemma_flatten_append(ls.take(j), ls.skip(j));
    lemma_dir_paths_append(flatten_listings(ls.take(j)), flatten_listings(ls.skip(j)));
}

proof fn lemma_no_match_no_hits(es: Seq<EntryView>, name: Seq<char>, kind: Kind)
    requires
        forall|j: int|
            0 <= j < es.len() ==> !eligible_spec(
                #[trigger] es[j].name,
                es[j].is_dir,
                name,
                kind,
            ),
    ensures
        hits(es, name, kind) == Seq::<Seq<char>>::empty(),
    decreases es.len(),
{
    if es.len() > 0 {
        assert(!eligible_spec(es[es.len() - 1].name, es[es.len() - 1].is_dir, name, kind));
        lemma_no_match_no_hits(es.drop_last(), name, kind);
        assert(hits(es, name, kind) =~= Seq::<Seq<char>>::empty());
    } else {
        assert(hits(es, name, kind) =~= Seq::<Seq<char>>::empty());
    }
}

proof fn lemma_single_match(es: Seq<EntryView>, name: Seq<char>, kind: Kind, k: int)
    requires
        0 <= k < es.len(),
        eligible_spec(es[k].name, es[k].is_dir, name, kind),
        forall|j: int|
            0 <= j < es.len() && j != k ==> !eligible_spec(
                #[trigger] es[j].name,
                es[j].is_dir,
                name,
                kind,
            ),
    ensures
        hits(es, name, kind) == seq![es[k].path],
    decreases es.len(),
{
    let init = es.drop_last();
    if k == es.len() - 1 {
        assert forall|j: int| 0 <= j < init.len() implies !eligible_spec(
            #[trigger] init[j].name,
            init[j].is_dir,
            name,
            kind,
        ) by {
            assert(init[j] == es[j]);
        }
        lemma_no_match_no_hits(init, name, kind);
        assert(hits(es, name, kind) =~= seq![es[k].path]);
    } else {
        assert(!eligible_spec(es.last().name, es.last().is_dir, name, kind));
        assert forall|j: int| 0 <= j < init.len() && j != k implies !eligible_spec(
            #[trigger] init[j].name,
            init[j].is_dir,
            name,
            kind,
        ) by {
            assert(init[j] == es[j]);
        }
        lemma_single_match(init, name, kind, k);
        assert(hits(es, name, kind) =~= seq![es[k].path]);
    }
}

proof fn lemma_all_names(es: Seq<EntryView>, kind: Kind)
    ensures
        kind == Kind::File ==> hits(es, Seq::<char>::empty(), kind) == entry_paths(es),
        kind == Kind::Directory ==> hits(es, Seq::<char>::empty(), kind) == dir_paths(es),
    decreases es.len(),
{
    if es.len() == 0 {
        assert(entry_paths(es) =~= Seq::<Seq<char>>::empty());
    } else {
        lemma_all_names(es.drop_last(), kind);
        assert(entry_paths(es) =~= entry_paths(es.drop_last()).push(es.last().path));
        if kind == Kind::File {
            assert(hits(es, Seq::<char>::empty(), kind) =~= entry_paths(es));
        } else {
            assert(hits(es, Seq::<char>::empty(), kind) =~= dir_paths(es));
        }
    }
}

impl Walker {
    /// A complete search for the empty name reports every entry it met (for
    /// `Kind::File`) or every directory it met (for `Kind::Directory`), and it
    /// met everything under the root: the root and each directory found below
    /// it were expanded, each with the listing the snapshot gives for it.
    pub proof fn law_empty_name_reports_everything(&self, fs: Snapshot)
        requires
            self.wf(),
            self.done(),
            self.query_name().len() == 0,
            fed_by(fs, self.root(), self.listed()),
        ensures
            self.kind() == Kind::File ==> self.found() == entry_paths(
                flatten_listings(self.listed()),
            ),
            self.kind() == Kind::Directory ==> self.found() == dir_paths(
                flatten_listings(self.listed()),
            ),
            self.listed().len() > 0,
            fs.contains_key(self.root()),
            self.listed()[0] == fs[self.root()],
            forall|m: int|
                0 <= m < dir_paths(flatten_listings(self.listed())).len() ==> {
                    &&& fs.contains_key(#[trigger] dir_paths(flatten_listings(self.listed()))[m])
                    &&& self.listed()[m + 1] == fs[dir_paths(flatten_listings(self.listed()))[m]]
                },
    {
        let ls = self.listed();
        let d = discovered(self.root(), ls);
        assert(self.query_name() =~= Seq::<char>::empty());
        lemma_all_names(flatten_listings(ls), self.kind());
        assert(d[0] == self.root());
        assert(fs.contains_key(d[0]));
        assert forall|m: int| 0 <= m < dir_paths(flatten_listings(ls)).len() implies {
            &&& fs.contains_key(#[trigger] dir_paths(flatten_listings(ls))[m])
            &&& ls[m + 1] == fs[dir_paths(flatten_listings(ls))[m]]
        } by {
            assert(d[m + 1] == dir_paths(flatten_listings(ls))[m]);
            assert(fs.contains_key(d[m + 1]));
        }
    }

    /// When exactly one entry met by a complete search carries the searched
    /// (non-empty) name and is of an eligible kind, that entry's path is the
    /// whole result, however deep it lies.
    pub proof fn law_unique_name_found_alone(&self, k: int)
        requires
            self.wf(),
            self.done(),
            self.query_name().len() > 0,
            0 <= k < flatten_listings(self.listed()).len(),
            flatten_listings(self.listed())[k].name == self.query_name(),
            self.kind() == Kind::File || flatten_listings(self.listed())[k].is_dir,
            forall|j: int|
                0 <= j < flatten_listings(self.listed()).len() && j != k ==> (#[trigger] flatten_listings(
                    self.listed(),
                )[j]).name != self.query_name(),
        ensures
            self.found() == seq![flatten_listings(self.listed())[k].path],
    {
        lemma_single_match(flatten_listings(self.listed()), self.query_name(), self.kind(), k);
    }

    /// When no entry met by a complete search carries the searched (non-empty)
    /// name, nothing is found, so [`Walker::finish`] reports [`NotFound`] with
    /// the query's kind and name.
    pub proof fn law_absent_name_not_found(&self)
        requires
            self.wf(),
            self.done(),
            self.query_name().len() > 0,
            forall|j: int|
                0 <= j < flatten_listings(self.listed()).len() ==> (#[trigger] flatten_listings(
                    self.listed(),
                )[j]).name != self.query_name(),
        ensures
            self.found() == Seq::<Seq<char>>::empty(),
    {
        lemma_no_match_no_hits(flatten_listings(self.listed()), self.query_name(), self.kind());
    }

    proof fn lemma_agree_upto(&self, other: &Walker, fs: Snapshot, i: int)
        requires
            self.wf(),
            other.wf(),
            self.root() == other.root(),
            fed_by(fs, self.root(), self.listed()),
            fed_by(fs, other.root(), other.listed()),
            0 <= i <= self.listed().len(),
            i <= other.listed().len(),
        ensures
            self.listed().take(i) == other.listed().take(i),
        decreases i,
    {
        let root = self.root();
        let l1 = self.listed();
        let l2 = other.listed();
        if i == 0 {
            assert(l1.take(0) =~= l2.take(0));
        } else {
            let p = i - 1;
            self.lemma_agree_upto(other, fs, p);
            let dp = discovered(root, l1.take(p));
            assert(discovered(root, l2.take(p)) == dp);
            assert(p < dp.len());
            lemma_discovered_prefix(root, l1, p, p);
            lemma_discovered_prefix(root, l2, p, p);
            assert(fs.contains_key(discovered(root, l1)[p]));
            assert(fs.contains_key(discovered(root, l2)[p]));
            assert(l1[p] == l2[p]);
            assert(l1.take(i) =~= l1.take(p).push(l1[p]));
            assert(l2.take(i) =~= l2.take(p).push(l2[p]));
        }
    }

    /// Two complete searches with the same root and query over the same,
    /// unchanged snapshot expand the same directories in the same order and
    /// report the same paths in the same order.
    pub proof fn law_search_is_repeatable(&self, other: &Walker, fs: Snapshot)
        requires
            self.wf(),
            other.wf(),
            self.done(),
            other.done(),
            self.root() == other.root(),
            self.query_name() == other.query_name(),
            self.kind() == other.kind(),
            fed_by(fs, self.root(), self.listed()),
            fed_by(fs, other.root(), other.listed()),
        ensures
            self.listed() == other.listed(),
            self.found() == other.found(),
    {
        let root = self.root();
        let l1 = self.listed();
        let l2 = other.listed();
        let m: int = if l1.len() <= l2.len() {
            l1.len() as int
        } else {
            l2.len() as int
        };
        self.lemma_agree_upto(other, fs, m);
        if l1.len() < l2.len() {
            assert(l1.take(m) =~= l1);
            assert(m < discovered(root, l2.take(m)).len());
        } else if l2.len() < l1.len() {
            assert(l2.take(m) =~= l2);
            assert(m < discovered(root, l1.take(m)).len());
        }
        assert(l1 =~= l1.take(m));
        assert(l2 =~= l2.take(m));
    }
}

} // verus!
