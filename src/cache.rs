//! The per-query cache of test items, and the reconstruction of an item's
//! ancestor path through it.

use vstd::prelude::*;
use crate::assoc::{map_of, Assoc};
use crate::text::{str_eq, str_views};

verus! {

/// A node of the test-item tree. `parent_id` is `root` for a top-level item.
pub struct TestItemDb {
    pub id: String,
    pub parent_id: String,
    pub name: String,
    pub source: i32,
}

impl TestItemDb {
    /// A copy of the item.
    pub fn copy(&self) -> (r: TestItemDb)
        ensures
            r == *self,
    {
        TestItemDb {
            id: self.id.clone(),
            parent_id: self.parent_id.clone(),
            name: self.name.clone(),
            source: self.source,
        }
    }
}

/// A copy of an optional item.
pub fn copy_item(o: &Option<TestItemDb>) -> (r: Option<TestItemDb>)
    ensures
        r == *o,
{
    match o {
        Some(it) => Some(it.copy()),
        None => None,
    }
}

/// The ancestors reached from the item `id` upwards, listed from the top
/// down and ending with `id`'s own item. The walk stops at `root`, at an item
/// that is unknown or recorded as absent, or after `fuel` steps.
pub open spec fn chain(m: Map<Seq<char>, Option<TestItemDb>>, id: Seq<char>, fuel: nat) -> Seq<
    TestItemDb,
>
    decreases fuel,
{
    if fuel == 0 || id == "root"@ || !m.contains_key(id) {
        Seq::empty()
    } else {
        match m[id] {
            Some(it) => chain(m, it.parent_id@, (fuel - 1) as nat).push(it),
            None => Seq::empty(),
        }
    }
}

/// The names of a sequence of items.
pub open spec fn names_of(v: Seq<TestItemDb>) -> Seq<Seq<char>> {
    v.map_values(|it: TestItemDb| it.name@)
}

/// The map `b` keeps every entry of `a`.
pub open spec fn keeps(a: Map<Seq<char>, Option<TestItemDb>>, b: Map<
    Seq<char>,
    Option<TestItemDb>,
>) -> bool {
    forall|k: Seq<char>| #[trigger] a.contains_key(k) ==> b.contains_key(k) && b[k] == a[k]
}

proof fn lemma_keeps_trans(
    a: Map<Seq<char>, Option<TestItemDb>>,
    b: Map<Seq<char>, Option<TestItemDb>>,
    c: Map<Seq<char>, Option<TestItemDb>>,
)
    requires
        keeps(a, b),
        keeps(b, c),
    ensures
        keeps(a, c),
{
    assert forall|k: Seq<char>| a.contains_key(k) implies c.contains_key(k) && c[k] == a[k] by {
        assert(b.contains_key(k));
    }
}

/// A walk of `ids.len()` steps from `start` to `cur`, each step through an
/// item present in `m`.
pub open spec fn walked(
    m: Map<Seq<char>, Option<TestItemDb>>,
    start: Seq<char>,
    ids: Seq<Seq<char>>,
    cur: Seq<char>,
) -> bool {
    &&& ids.len() == 0 ==> cur == start
    &&& ids.len() > 0 ==> ids[0] == start
    &&& forall|j: int|
        0 <= j < ids.len() ==> {
            &&& #[trigger] ids[j] != "root"@
            &&& m.contains_key(ids[j])
            &&& m[ids[j]] is Some
            &&& m[ids[j]].unwrap().parent_id@ == if j + 1 < ids.len() {
                ids[j + 1]
            } else {
                cur
            }
        }
}

proof fn lemma_walked_chain(
    m: Map<Seq<char>, Option<TestItemDb>>,
    start: Seq<char>,
    ids: Seq<Seq<char>>,
    cur: Seq<char>,
    names: Seq<TestItemDb>,
    fuel: nat,
    j: int,
)
    requires
        walked(m, start, ids, cur),
        ids.len() <= fuel,
        names.len() == ids.len(),
        forall|i: int|
            0 <= i < ids.len() ==> names[ids.len() - 1 - i] == m[#[trigger] ids[i]].unwrap(),
        0 <= j <= ids.len(),
    ensures
        j < ids.len() ==> chain(m, ids[j], (fuel - j) as nat) == chain(
            m,
            cur,
            (fuel - ids.len()) as nat,
        ) + names.subrange(0, ids.len() - j),
        j == 0 ==> chain(m, start, fuel) == chain(
            m,
            cur,
            (fuel - ids.len()) as nat,
        ) + names,
    decreases ids.len() - j,
{
    let d = ids.len() as int;
    let tail = chain(m, cur, (fuel - d) as nat);
    if j < d {
        lemma_walked_chain(m, start, ids, cur, names, fuel, j + 1);
        let it = m[ids[j]].unwrap();
        assert(chain(m, ids[j], (fuel - j) as nat) == chain(
            m,
            it.parent_id@,
            (fuel - j - 1) as nat,
        ).push(it));
        if j + 1 < d {
            assert(names.subrange(0, d - j) =~= names.subrange(0, d - j - 1).push(
                names[d - 1 - j],
            ));
            assert(tail + names.subrange(0, d - j) =~= (tail + names.subrange(0, d - j - 1)).push(
                names[d - 1 - j],
            ));
        } else {
            assert(names.subrange(0, d - j) =~= seq![names[0]]);
            assert(tail + names.subrange(0, d - j) =~= tail.push(names[0]));
        }
    }
    if j == 0 {
        if d == 0 {
            assert(tail + names =~= tail);
        } else {
            assert(names.subrange(0, d) =~= names);
        }
    }
}

/// Item records looked up during one query, each fetched at most once.
pub struct PathCache {
    items: Assoc<Option<TestItemDb>>,
}

impl View for PathCache {
    type V = Map<Seq<char>, Option<TestItemDb>>;

    closed spec fn view(&self) -> Map<Seq<char>, Option<TestItemDb>> {
        self.items@
    }
}

impl PathCache {
    /// The internal invariant.
    pub closed spec fn wf(&self) -> bool {
        self.items.wf()
    }

    /// An empty cache.
    pub fn new() -> (r: PathCache)
        ensures
            r.wf(),
            r@ == Map::<Seq<char>, Option<TestItemDb>>::empty(),
    {
        PathCache { items: Assoc::new() }
    }

    /// A cache seeded with records fetched beforehand; a later entry for an
    /// identifier overrides an earlier one.
    pub fn new_with(seed: Vec<(String, Option<TestItemDb>)>) -> (r: PathCache)
        ensures
            r.wf(),
            r@ == map_of(seed@),
    {
        let mut cache = PathCache::new();
        let mut rest = seed;
        let ghost all = rest@;
        let mut i: usize = 0;
        while i < rest.len()
            invariant
                cache.wf(),
                i <= all.len(),
                rest@ == all,
                cache@ == map_of(all.take(i as int)),
            decreases rest@.len() - i,
        {
            let id = rest[i].0.clone();
            let item = copy_item(&rest[i].1);
            assert(all.take(i + 1).drop_last() =~= all.take(i as int));
            cache.items.insert(id, item);
            i = i + 1;
        }
        assert(all.take(all.len() as int) =~= all);
        cache
    }

    /// Whether the record of `id` is held, found or not.
    pub fn contains(&self, id: &str) -> (r: bool)
        requires
            self.wf(),
        ensures
            r == self@.contains_key(id@),
    {
        self.items.contains_key(id)
    }

    /// The record of `id`: the held one if there is one (a held absence
    /// included); else `loader` is called once and its answer is held and
    /// returned.
    pub fn get<F: Fn(&str) -> Option<TestItemDb>>(&mut self, id: &str, loader: &F) -> (r: Option<
        TestItemDb,
    >)
        requires
            old(self).wf(),
            loader.requires((id,)),
        ensures
            final(self).wf(),
            old(self)@.contains_key(id@) ==> final(self)@ == old(self)@ && r == old(self)@[id@],
            !old(self)@.contains_key(id@) ==> loader.ensures((id,), r) && final(self)@ == old(
                self,
            )@.insert(id@, r),
    {
        match self.items.get(id) {
            Some(held) => copy_item(held),
            None => {
                let loaded = loader(id);
                self.items.insert(id.to_string(), copy_item(&loaded));
                loaded
            },
        }
    }

    /// The ancestors of an item whose parent is `parent_id`, from the top of
    /// the tree down, at most `max_depth` of them. Records are taken from the cache, and
    /// the ones missing are loaded through `loader` and held.
    pub fn ancestors<F: Fn(&str) -> Option<TestItemDb>>(
        &mut self,
        parent_id: &str,
        loader: &F,
        max_depth: usize,
    ) -> (r: Vec<TestItemDb>)
        requires
            old(self).wf(),
            forall|s: &str| loader.requires((s,)),
        ensures
            final(self).wf(),
            keeps(old(self)@, final(self)@),
            r@ == chain(final(self)@, parent_id@, max_depth as nat),
            forall|m: Map<Seq<char>, Option<TestItemDb>>|
                #![trigger keeps(final(self)@, m)]
                keeps(final(self)@, m) ==> r@ == chain(m, parent_id@, max_depth as nat),
            forall|k: Seq<char>|
                #[trigger] final(self)@.contains_key(k) && !old(self)@.contains_key(k) ==> exists|
                    s: &str,
                | s@ == k && #[trigger] loader.ensures((s,), final(self)@[k]),
    {
        let mut path: Vec<TestItemDb> = Vec::new();
        let mut cur = parent_id.to_string();
        let mut depth: usize = 0;
        let mut stopped = false;
        let ghost mut ids: Seq<Seq<char>> = Seq::empty();
        while !stopped && depth < max_depth
            invariant
                self.wf(),
                forall|s: &str| loader.requires((s,)),
                keeps(old(self)@, self@),
                depth <= max_depth,
                ids.len() == depth,
                path@.len() == depth,
                walked(self@, parent_id@, ids, cur@),
                forall|i: int|
                    0 <= i < depth ==> path@[depth - 1 - i] == self@[#[trigger] ids[i]].unwrap(),
                stopped ==> cur@ == "root"@ || (self@.contains_key(cur@) && self@[cur@] is None),
                forall|k: Seq<char>|
                    #[trigger] self@.contains_key(k) && !old(self)@.contains_key(k) ==> exists|
                        s: &str,
                    | s@ == k && #[trigger] loader.ensures((s,), self@[k]),
            decreases max_depth - depth + if stopped {
                0int
            } else {
                1int
            },
        {
            if str_eq(cur.as_str(), "root") {
                stopped = true;
            } else {
                let ghost before = self@;
                let key = cur.as_str();
                let found = self.get(key, loader);
                assert forall|k: Seq<char>|
                    #[trigger] self@.contains_key(k) && !old(self)@.contains_key(k) implies exists|
                        s: &str,
                    | s@ == k && #[trigger] loader.ensures((s,), self@[k]) by {
                    if !before.contains_key(k) {
                        assert(k == key@);
                        assert(loader.ensures((key,), self@[k]));
                    } else {
                        assert(self@[k] == before[k]);
                    }
                }
                proof {
                    lemma_keeps_trans(old(self)@, before, self@);
                }
                match found {
                    Some(item) => {
                        let ghost prev_path = path@;
                        let ghost prev_ids = ids;
                        proof {
                            ids = ids.push(cur@);
                        }
                        cur = item.parent_id.clone();
                        path.insert(0, item);
                        depth = depth + 1;
                        assert forall|i: int| 0 <= i < depth implies path@[depth - 1 - i]
                            == self@[#[trigger] ids[i]].unwrap() by {
                            if i < depth - 1 {
                                assert(path@[depth - 1 - i] == prev_path[depth - 2 - i]);
                                assert(ids[i] == prev_ids[i]);
                            }
                        }
                    },
                    None => {
                        stopped = true;
                    },
                }
            }
        }
        proof {
            let names = path@;
            assert forall|i: int| 0 <= i < ids.len() implies names[ids.len() - 1 - i]
                == self@[#[trigger] ids[i]].unwrap() by {}
            lemma_walked_chain(self@, parent_id@, ids, cur@, names, max_depth as nat, 0);
            assert(chain(self@, cur@, (max_depth - depth) as nat) =~= Seq::empty());
            assert(Seq::<TestItemDb>::empty() + names =~= names);
            assert forall|m: Map<Seq<char>, Option<TestItemDb>>|
                #![trigger keeps(self@, m)]
                keeps(self@, m) implies names == chain(m, parent_id@, max_depth as nat) by {
                assert(walked(m, parent_id@, ids, cur@));
                assert forall|i: int| 0 <= i < ids.len() implies names[ids.len() - 1 - i]
                    == m[#[trigger] ids[i]].unwrap() by {
                    assert(self@.contains_key(ids[i]));
                }
                lemma_walked_chain(m, parent_id@, ids, cur@, names, max_depth as nat, 0);
                assert(chain(m, cur@, (max_depth - depth) as nat) =~= Seq::empty());
            }
        }
        path
    }

    /// The names of the ancestors of an item whose parent is `parent_id`,
    /// from the top of the tree down, at most `max_depth` of them.
    pub fn ancestor_names<F: Fn(&str) -> Option<TestItemDb>>(
        &mut self,
        parent_id: &str,
        loader: &F,
        max_depth: usize,
    ) -> (r: Vec<String>)
        requires
            old(self).wf(),
            forall|s: &str| loader.requires((s,)),
        ensures
            final(self).wf(),
            keeps(old(self)@, final(self)@),
            str_views(r@) == names_of(chain(final(self)@, parent_id@, max_depth as nat)),
            forall|m: Map<Seq<char>, Option<TestItemDb>>|
                #![trigger keeps(final(self)@, m)]
                keeps(final(self)@, m) ==> str_views(r@) == names_of(
                    chain(m, parent_id@, max_depth as nat),
                ),
            forall|k: Seq<char>|
                #[trigger] final(self)@.contains_key(k) && !old(self)@.contains_key(k) ==> exists|
                    s: &str,
                | s@ == k && #[trigger] loader.ensures((s,), final(self)@[k]),
    {
        let items = self.ancestors(parent_id, loader, max_depth);
        let mut names: Vec<String> = Vec::new();
        let mut i: usize = 0;
        while i < items.len()
            invariant
                i <= items@.len(),
                str_views(names@) == names_of(items@.take(i as int)),
            decreases items@.len() - i,
        {
            let ghost prev = names@;
            names.push(items[i].name.clone());
            assert(items@.take(i + 1) =~= items@.take(i as int).push(items@[i as int]));
            assert(str_views(names@) =~= str_views(prev).push(items@[i as int].name@));
            assert(names_of(items@.take(i + 1)) =~= names_of(items@.take(i as int)).push(
                items@[i as int].name@,
            ));
            i = i + 1;
        }
        assert(items@.take(items@.len() as int) =~= items@);
        names
    }
}

/// Once a `get` of `id` has answered `r`, the cache holds `r` for `id`: a
/// later `get` of `id` answers `r` from the cache, leaves it unchanged and
/// calls no loader, so the loader runs at most once per identifier.
pub proof fn lemma_get_memoizes(
    before: Map<Seq<char>, Option<TestItemDb>>,
    after: Map<Seq<char>, Option<TestItemDb>>,
    id: Seq<char>,
    r: Option<TestItemDb>,
)
    requires
        before.contains_key(id) ==> after == before && r == before[id],
        !before.contains_key(id) ==> after == before.insert(id, r),
    ensures
        after.contains_key(id),
        after[id] == r,
        keeps(before, after),
{
}

} // verus!
