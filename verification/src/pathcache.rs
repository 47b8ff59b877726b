//! The path cache: a snapshot that maps the base name of each executable
//! found on the search path to its absolute path. Directories are scanned in
//! order and the first file found under a name keeps it.

use crate::text::{copy_string, lemma_views_push, views};
use vstd::hash_map::StringHashMap;
use vstd::prelude::*;
use vstd::string::*;

verus! {

/// Whether a directory entry counts as an executable: a regular file with
/// at least one of the three execute bits set in its mode.
pub open spec fn qualifies(is_file: bool, mode: u32) -> bool {
    is_file && mode & 0o111 != 0
}

/// Whether a directory entry with this file type and mode is an executable.
pub fn is_executable(is_file: bool, mode: u32) -> (b: bool)
    ensures
        b == qualifies(is_file, mode),
{
    is_file && mode & 0o111 != 0
}

/// The map that a list of `(name, path)` entries fills when each name keeps
/// the path of its first entry.
pub open spec fn cache_of(entries: Seq<(Seq<char>, Seq<char>)>) -> Map<Seq<char>, Seq<char>>
    decreases entries.len(),
{
    if entries.len() == 0 {
        Map::empty()
    } else {
        let before = cache_of(entries.drop_last());
        if before.contains_key(entries.last().0) {
            before
        } else {
            before.insert(entries.last().0, entries.last().1)
        }
    }
}

/// The names in the cache are the names of the entries.
pub proof fn lemma_cache_holds_every_name(entries: Seq<(Seq<char>, Seq<char>)>, name: Seq<char>)
    ensures
        cache_of(entries).contains_key(name) <==> exists|i: int|
            0 <= i < entries.len() && entries[i].0 == name,
    decreases entries.len(),
{
    if entries.len() > 0 {
        let front = entries.drop_last();
        lemma_cache_holds_every_name(front, name);
        if cache_of(entries).contains_key(name) {
            if cache_of(front).contains_key(name) {
                let i = choose|i: int| 0 <= i < front.len() && front[i].0 == name;
                assert(entries[i].0 == name);
            } else {
                assert(entries[entries.len() - 1].0 == name);
            }
        } else {
            assert forall|i: int| 0 <= i < entries.len() implies entries[i].0 != name by {
                if i < front.len() {
                    assert(front[i] == entries[i]);
                }
            }
        }
    }
}

/// First occurrence wins: a name is mapped to the path of the first entry
/// that carries it, whatever entries follow.
pub proof fn lemma_first_occurrence_wins(entries: Seq<(Seq<char>, Seq<char>)>, i: int)
    requires
        0 <= i < entries.len(),
        forall|j: int| 0 <= j < i ==> entries[j].0 != entries[i].0,
    ensures
        cache_of(entries).contains_key(entries[i].0),
        cache_of(entries)[entries[i].0] == entries[i].1,
    decreases entries.len(),
{
    let front = entries.drop_last();
    if i < entries.len() - 1 {
        assert(front[i] == entries[i]);
        assert forall|j: int| 0 <= j < i implies front[j].0 != front[i].0 by {
            assert(front[j] == entries[j]);
        }
        lemma_first_occurrence_wins(front, i);
    } else {
        lemma_cache_holds_every_name(front, entries[i].0);
        if cache_of(front).contains_key(entries[i].0) {
            let j = choose|j: int| 0 <= j < front.len() && front[j].0 == entries[i].0;
            assert(front[j] == entries[j]);
        }
    }
}

/// The model of a list of entries.
pub open spec fn entry_views(entries: Seq<(String, String)>) -> Seq<(Seq<char>, Seq<char>)> {
    Seq::new(entries.len(), |i: int| (entries[i].0@, entries[i].1@))
}

/// The snapshot of the executables on the search path.
pub struct PathCache {
    map: StringHashMap<String>,
    names: Vec<String>,
}

impl View for PathCache {
    type V = Map<Seq<char>, Seq<char>>;

    closed spec fn view(&self) -> Map<Seq<char>, Seq<char>> {
        self.map@.map_values(|p: String| p@)
    }
}

impl PathCache {
    /// The names are listed once each, and they are the keys of the map.
    pub closed spec fn wf(&self) -> bool {
        &&& views(self.names@).no_duplicates()
        &&& forall|name: Seq<char>|
            views(self.names@).contains(name) <==> #[trigger] self.map@.contains_key(name)
    }

    /// The names of the cache, in the order in which they were found.
    pub closed spec fn listed(&self) -> Seq<Seq<char>> {
        views(self.names@)
    }

    /// The listed names are the names that the cache maps, each once.
    pub proof fn lemma_listed(&self)
        requires
            self.wf(),
        ensures
            self.listed().no_duplicates(),
            forall|name: Seq<char>| self.listed().contains(name) <==> self@.contains_key(name),
    {
        assert forall|name: Seq<char>| self.listed().contains(name) <==> self@.contains_key(
            name,
        ) by {
            assert(self.map@.contains_key(name) <==> self@.contains_key(name));
        }
    }

    /// An empty cache.
    pub fn new() -> (cache: PathCache)
        ensures
            cache.wf(),
            cache@ == Map::<Seq<char>, Seq<char>>::empty(),
            cache.listed() == Seq::<Seq<char>>::empty(),
    {
        let cache = PathCache { map: StringHashMap::new(), names: Vec::new() };
        assert(cache@ =~= Map::<Seq<char>, Seq<char>>::empty());
        assert(cache.listed() =~= Seq::<Seq<char>>::empty());
        cache
    }

    /// Records that the executable `name` was found at `path`, unless the
    /// name is known already: the first path found for a name stays.
    pub fn insert_first(&mut self, name: String, path: String)
        requires
            old(self).wf(),
        ensures
            final(self).wf(),
            final(self)@ == if old(self)@.contains_key(name@) {
                old(self)@
            } else {
                old(self)@.insert(name@, path@)
            },
            final(self).listed() == if old(self)@.contains_key(name@) {
                old(self).listed()
            } else {
                old(self).listed().push(name@)
            },
    {
        let ghost before = *self;
        assert(self.map@.contains_key(name@) <==> self@.contains_key(name@));
        if !self.map.contains_key(name.as_str()) {
            let key = copy_string(&name);
            proof {
                lemma_views_push(self.names@, name);
            }
            self.map.insert(key, path);
            self.names.push(name);
            assert(self@ =~= before@.insert(name@, path@));
            assert forall|other: Seq<char>|
                views(self.names@).contains(other) <==> #[trigger] self.map@.contains_key(
                    other,
                ) by {
                let old_names = views(before.names@);
                let new_names = views(self.names@);
                if new_names.contains(other) {
                    let i = choose|i: int| 0 <= i < new_names.len() && new_names[i] == other;
                    if i < old_names.len() {
                        assert(old_names[i] == other);
                        assert(old_names.contains(other));
                    }
                }
                if self.map@.contains_key(other) && other != name@ {
                    assert(old_names.contains(other));
                    let i = choose|i: int| 0 <= i < old_names.len() && old_names[i] == other;
                    assert(new_names[i] == other);
                }
                if other == name@ {
                    assert(new_names[new_names.len() - 1] == other);
                }
            }
            assert(views(self.names@).no_duplicates()) by {
                let old_names = views(before.names@);
                let new_names = views(self.names@);
                assert forall|i: int, j: int|
                    0 <= i < new_names.len() && 0 <= j < new_names.len() && i != j implies new_names[i]
                    != new_names[j] by {
                    if i < old_names.len() {
                        assert(old_names[i] == new_names[i]);
                        assert(old_names.contains(new_names[i]));
                    }
                    if j < old_names.len() {
                        assert(old_names[j] == new_names[j]);
                        assert(old_names.contains(new_names[j]));
                    }
                }
            }
        }
    }

    /// Whether the cache knows an executable of this name.
    pub fn contains(&self, name: &str) -> (found: bool)
        ensures
            found == self@.contains_key(name@),
    {
        assert(self.map@.contains_key(name@) <==> self@.contains_key(name@));
        self.map.contains_key(name)
    }

    /// The absolute path recorded for `name`, if the cache knows the name.
    pub fn resolve(&self, name: &str) -> (path: Option<String>)
        ensures
            path is Some <==> self@.contains_key(name@),
            path matches Some(p) ==> p@ == self@[name@],
    {
        assert(self.map@.contains_key(name@) <==> self@.contains_key(name@));
        match self.map.get(name) {
            Some(p) => Some(copy_string(p)),
            None => None,
        }
    }

    /// The names of the cache, in the order in which they were found.
    pub fn names(&self) -> (names: &Vec<String>)
        ensures
            views(names@) == self.listed(),
    {
        &self.names
    }

    /// The cache of a scan that found `entries`, as pairs of name and path,
    /// in this order.
    pub fn from_entries(entries: &Vec<(String, String)>) -> (cache: PathCache)
        ensures
            cache.wf(),
            cache@ == cache_of(entry_views(entries@)),
    {
        let mut cache = PathCache::new();
        let mut i: usize = 0;
        assert(entry_views(entries@).take(0) =~= Seq::<(Seq<char>, Seq<char>)>::empty());
        while i < entries.len()
            invariant
                i <= entries.len(),
                cache.wf(),
                cache@ == cache_of(entry_views(entries@).take(i as int)),
            decreases entries.len() - i,
        {
            let name = copy_string(&entries[i].0);
            let path = copy_string(&entries[i].1);
            proof {
                let all = entry_views(entries@);
                assert(all.take(i + 1).drop_last() =~= all.take(i as int));
                assert(all.take(i + 1).last() == (name@, path@));
            }
            cache.insert_first(name, path);
            i += 1;
        }
        assert(entry_views(entries@).take(i as int) =~= entry_views(entries@));
        cache
    }
}

} // verus!
