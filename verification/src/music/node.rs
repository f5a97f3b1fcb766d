//! The tree: a `Node` maps display names to entries, and each `Entry` holds
//! the node of what lies below it.

use vstd::prelude::*;
use crate::music::order::{
    key_before, before, same, key_before_irreflexive, key_before_transitive, key_before_total,
};

verus! {

/// What an `Entry` stands for: its three texts, and the entries below it by
/// name.
pub struct EntryView {
    pub src: Seq<char>,
    pub art: Seq<char>,
    pub parent: Seq<char>,
    pub child: Map<Seq<char>, EntryView>,
}

/// A directory (an artist, an album) or an audio file.
///
/// `src` is the path of the file or directory, `art` the path of its cover
/// art (empty where there is none), `parent` the display name of the
/// directory that holds it, `child` what lies below it. An audio file has
/// nothing below it.
#[derive(Debug)]
pub struct Entry {
    pub src: String,
    pub art: String,
    pub parent: String,
    pub child: Node,
}

/// One level of the tree: entries by display name. No name occurs twice, and
/// the names stand in ascending order.
#[derive(Debug)]
pub struct Node {
    keys: Vec<String>,
    entries: Vec<Entry>,
}

/// The keys ascend strictly.
spec fn ascending(keys: Seq<String>) -> bool {
    forall|i: int, j: int|
        0 <= i < j < keys.len() ==> key_before(#[trigger] keys[i]@, #[trigger] keys[j]@)
}

/// The map that the first `n` keys make with the first `n` entries, a later
/// pair winning over an earlier one of the same name.
spec fn pairs_view(keys: Seq<String>, entries: Seq<Entry>, n: nat) -> Map<Seq<char>, EntryView>
    decreases entries, n,
{
    if n == 0 || n > entries.len() {
        Map::empty()
    } else {
        pairs_view(keys, entries, (n - 1) as nat).insert(keys[n - 1]@, entries[n - 1].view())
    }
}

/// What `pairs_view` holds where the keys ascend: exactly the first `n`
/// keys, each with the entry that stands beside it.
proof fn pairs_view_holds(keys: Seq<String>, entries: Seq<Entry>, n: nat)
    requires
        ascending(keys),
        keys.len() == entries.len(),
        n <= keys.len(),
    ensures
        pairs_view(keys, entries, n).dom().finite(),
        pairs_view(keys, entries, n).len() == n,
        forall|k: Seq<char>|
            pairs_view(keys, entries, n).contains_key(k) <==> exists|i: int|
                0 <= i < n && #[trigger] keys[i]@ == k,
        forall|i: int|
            0 <= i < n ==> pairs_view(keys, entries, n)[#[trigger] keys[i]@] == entries[i].view(),
    decreases n,
{
    if n > 0 {
        let m = (n - 1) as nat;
        pairs_view_holds(keys, entries, m);
        let before_last = pairs_view(keys, entries, m);
        let last = keys[n - 1]@;
        assert(!before_last.contains_key(last)) by {
            if before_last.contains_key(last) {
                let i = choose|i: int| 0 <= i < m && #[trigger] keys[i]@ == last;
                assert(key_before(keys[i]@, keys[n - 1]@));
                key_before_irreflexive(last);
            }
        }
        assert forall|k: Seq<char>|
            pairs_view(keys, entries, n).contains_key(k) <==> exists|i: int|
                0 <= i < n && #[trigger] keys[i]@ == k by {
            if pairs_view(keys, entries, n).contains_key(k) {
                if k == last {
                    assert(keys[n - 1]@ == k);
                } else {
                    assert(before_last.contains_key(k));
                    let i = choose|i: int| 0 <= i < m && #[trigger] keys[i]@ == k;
                    assert(0 <= i < n && keys[i]@ == k);
                }
            }
            if exists|i: int| 0 <= i < n && #[trigger] keys[i]@ == k {
                let i = choose|i: int| 0 <= i < n && #[trigger] keys[i]@ == k;
                if i < m {
                    assert(before_last.contains_key(k));
                }
            }
        }
        assert forall|i: int| 0 <= i < n implies pairs_view(keys, entries, n)[#[trigger] keys[i]@]
            == entries[i].view() by {
            if i < m {
                assert(before_last.contains_key(keys[i]@));
            }
        }
    }
}

/// Putting a key and its entry among ascending keys, in the place of the
/// pair of that name or, where there is none, in the place that keeps the
/// order, puts the entry under the key and leaves the other names alone.
proof fn put_holds(
    old_keys: Seq<String>,
    old_entries: Seq<Entry>,
    new_keys: Seq<String>,
    new_entries: Seq<Entry>,
    p: int,
    key: Seq<char>,
    entry: Entry,
    replaced: bool,
)
    requires
        ascending(old_keys),
        ascending(new_keys),
        old_keys.len() == old_entries.len(),
        new_keys.len() == new_entries.len(),
        0 <= p <= old_keys.len(),
        replaced ==> p < old_keys.len() && old_keys[p]@ == key && new_keys == old_keys
            && new_entries == old_entries.update(p, entry),
        !replaced ==> p < new_keys.len() && new_keys[p]@ == key && new_keys.remove(p) == old_keys
            && new_entries == old_entries.insert(p, entry),
    ensures
        pairs_view(new_keys, new_entries, new_keys.len()) == pairs_view(
            old_keys,
            old_entries,
            old_keys.len(),
        ).insert(key, entry.view()),
{
    pairs_view_holds(old_keys, old_entries, old_keys.len());
    pairs_view_holds(new_keys, new_entries, new_keys.len());
    let a = pairs_view(new_keys, new_entries, new_keys.len());
    let b = pairs_view(old_keys, old_entries, old_keys.len()).insert(key, entry.view());
    assert(new_entries[p] == entry);
    assert(new_keys[p]@ == key);
    assert forall|k: Seq<char>| a.contains_key(k) implies b.contains_key(k) && a[k] == b[k] by {
        let j = choose|j: int| 0 <= j < new_keys.len() && #[trigger] new_keys[j]@ == k;
        if j != p {
            let i = if replaced || j < p {
                j
            } else {
                j - 1
            };
            assert(old_entries[i] == new_entries[j]);
            assert(old_keys[i] == new_keys[j]);
            assert(old_keys[i]@ == k);
            assert(k != key) by {
                key_before_irreflexive(k);
                if j < p {
                    assert(key_before(new_keys[j]@, new_keys[p]@));
                } else {
                    assert(key_before(new_keys[p]@, new_keys[j]@));
                }
            }
        }
    }
    assert forall|k: Seq<char>| b.contains_key(k) implies a.contains_key(k) by {
        if k != key {
            let i = choose|i: int| 0 <= i < old_keys.len() && #[trigger] old_keys[i]@ == k;
            let j = if replaced || i < p {
                i
            } else {
                i + 1
            };
            assert(new_keys[j] == old_keys[i]);
            assert(new_keys[j]@ == k);
        }
    }
    assert(a =~= b);
}

impl Entry {
    /// What this entry stands for.
    pub open spec fn view(&self) -> EntryView
        decreases self,
    {
        EntryView { src: self.src@, art: self.art@, parent: self.parent@, child: self.child.view() }
    }

    /// An entry with empty texts and nothing below it.
    pub fn default() -> (e: Entry)
        ensures
            e@.src == Seq::<char>::empty(),
            e@.art == Seq::<char>::empty(),
            e@.parent == Seq::<char>::empty(),
            e@.child == Map::<Seq<char>, EntryView>::empty(),
    {
        Entry { src: String::new(), art: String::new(), parent: String::new(), child: Node::new() }
    }
}

impl Node {
    #[verifier::type_invariant]
    spec fn inv(&self) -> bool {
        self.keys@.len() == self.entries@.len() && ascending(self.keys@)
    }

    /// The entries of this node by name.
    pub closed spec fn view(&self) -> Map<Seq<char>, EntryView>
        decreases self,
    {
        pairs_view(self.keys@, self.entries@, self.entries@.len())
    }

    /// A node without entries.
    pub fn new() -> (n: Node)
        ensures
            n@ == Map::<Seq<char>, EntryView>::empty(),
    {
        Node { keys: Vec::new(), entries: Vec::new() }
    }

    /// The number of entries.
    pub fn len(&self) -> (n: usize)
        ensures
            self@.dom().finite(),
            n == self@.len(),
    {
        proof {
            use_type_invariant(self);
            pairs_view_holds(self.keys@, self.entries@, self.keys@.len());
        }
        self.keys.len()
    }

    /// Whether the node holds no entry.
    pub fn is_empty(&self) -> (r: bool)
        ensures
            r == (self@ == Map::<Seq<char>, EntryView>::empty()),
    {
        proof {
            use_type_invariant(self);
            pairs_view_holds(self.keys@, self.entries@, self.keys@.len());
            if self.keys@.len() == 0 {
                assert(self@ =~= Map::<Seq<char>, EntryView>::empty());
            } else {
                assert(self@.contains_key(self.keys@[0]@));
            }
        }
        self.keys.len() == 0
    }

    /// The place of `key` among the names, if it is there.
    fn find(&self, key: &str) -> (r: Option<usize>)
        ensures
            match r {
                Some(i) => i < self.keys@.len() && self.keys@[i as int]@ == key@,
                None => !self@.contains_key(key@),
            },
    {
        proof {
            use_type_invariant(self);
            pairs_view_holds(self.keys@, self.entries@, self.keys@.len());
        }
        let mut i: usize = 0;
        while i < self.keys.len()
            invariant
                i <= self.keys@.len(),
                forall|j: int| 0 <= j < i ==> (#[trigger] self.keys@[j])@ != key@,
            decreases self.keys@.len() - i,
        {
            if same(self.keys[i].as_str(), key) {
                return Some(i);
            }
            i += 1;
        }
        None
    }

    /// Puts `entry` under `key`. An entry that stood there leaves the node
    /// and is handed back.
    pub fn insert(&mut self, key: String, entry: Entry) -> (r: Option<Entry>)
        ensures
            final(self)@ == old(self)@.insert(key@, entry@),
            match r {
                Some(e) => old(self)@.contains_key(key@) && e@ == old(self)@[key@],
                None => !old(self)@.contains_key(key@),
            },
    {
        proof {
            use_type_invariant(&*self);
            pairs_view_holds(self.keys@, self.entries@, self.keys@.len());
        }
        let ghost old_keys = self.keys@;
        let ghost old_entries = self.entries@;
        let ghost put = entry;
        let mut i: usize = 0;
        while i < self.keys.len() && before(self.keys[i].as_str(), key.as_str())
            invariant
                i <= self.keys@.len(),
                self.keys@ == old_keys,
                forall|j: int| 0 <= j < i ==> key_before((#[trigger] old_keys[j])@, key@),
            decreases self.keys@.len() - i,
        {
            i += 1;
        }
        let replaced = i < self.keys.len() && same(self.keys[i].as_str(), key.as_str());
        proof {
            if !replaced {
                if i < old_keys.len() {
                    key_before_total(old_keys[i as int]@, key@);
                }
                assert(!old(self)@.contains_key(key@)) by {
                    if old(self)@.contains_key(key@) {
                        let j = choose|j: int|
                            0 <= j < old_keys.len() && #[trigger] old_keys[j]@ == key@;
                        key_before_irreflexive(key@);
                        if j > i {
                            assert(key_before(old_keys[i as int]@, old_keys[j]@));
                            key_before_transitive(key@, old_keys[i as int]@, old_keys[j]@);
                        }
                    }
                }
            }
        }
        let mut taken = Node::new();
        core::mem::swap(self, &mut taken);
        let Node { keys: mut keys, entries: mut entries } = taken;
        if replaced {
            let mut entry = entry;
            core::mem::swap(&mut entries[i], &mut entry);
            proof {
                put_holds(old_keys, old_entries, keys@, entries@, i as int, key@, put, true);
            }
            *self = Node { keys, entries };
            Some(entry)
        } else {
            keys.insert(i, key);
            entries.insert(i, entry);
            proof {
                assert(keys@.remove(i as int) =~= old_keys);
                assert forall|a: int, b: int| 0 <= a < b < keys@.len() implies key_before(
                    #[trigger] keys@[a]@,
                    #[trigger] keys@[b]@,
                ) by {
                    if b == i {
                        assert(keys@[a] == old_keys[a]);
                    } else if a == i {
                        assert(keys@[b] == old_keys[b - 1]);
                        if b - 1 > i {
                            assert(key_before(old_keys[i as int]@, old_keys[b - 1]@));
                            key_before_transitive(key@, old_keys[i as int]@, old_keys[b - 1]@);
                        }
                    } else {
                        let a0 = if a < i {
                            a
                        } else {
                            a - 1
                        };
                        let b0 = if b < i {
                            b
                        } else {
                            b - 1
                        };
                        assert(keys@[a] == old_keys[a0]);
                        assert(keys@[b] == old_keys[b0]);
                    }
                }
                put_holds(old_keys, old_entries, keys@, entries@, i as int, key@, put, false);
            }
            *self = Node { keys, entries };
            None
        }
    }

    /// The entry under `key`, to be changed in place.
    pub fn get_mut(&mut self, key: &str) -> (r: Option<&mut Entry>)
        ensures
            match r {
                Some(e) => old(self)@.contains_key(key@) && e@ == old(self)@[key@] && final(self)@
                    == old(self)@.insert(key@, final(e)@),
                None => !old(self)@.contains_key(key@) && final(self)@ == old(self)@,
            },
    {
        proof {
            use_type_invariant(&*self);
            pairs_view_holds(self.keys@, self.entries@, self.keys@.len());
        }
        match self.find(key) {
            Some(i) => {
                let ghost keys = self.keys@;
                let ghost entries = self.entries@;
                let e = &mut self.entries[i];
                proof {
                    let after = entries.update(i as int, *final(e));
                    put_holds(keys, entries, keys, after, i as int, key@, *final(e), true);
                }
                Some(e)
            },
            None => None,
        }
    }

    /// Whether the node has an entry under `key`.
    pub fn contains_key(&self, key: &str) -> (r: bool)
        ensures
            r == self@.contains_key(key@),
    {
        proof {
            use_type_invariant(self);
            pairs_view_holds(self.keys@, self.entries@, self.keys@.len());
        }
        self.find(key).is_some()
    }

    /// The names of the entries, in ascending order.
    pub fn keys(&self) -> (r: Vec<String>)
        ensures
            r@.len() == self@.len(),
            forall|i: int, j: int|
                0 <= i < j < r@.len() ==> key_before(#[trigger] r@[i]@, #[trigger] r@[j]@),
            forall|k: Seq<char>|
                self@.contains_key(k) <==> exists|i: int| 0 <= i < r@.len() && #[trigger] r@[i]@ == k,
    {
        proof {
            use_type_invariant(self);
            pairs_view_holds(self.keys@, self.entries@, self.keys@.len());
        }
        let mut r: Vec<String> = Vec::new();
        let mut i: usize = 0;
        while i < self.keys.len()
            invariant
                i <= self.keys@.len(),
                r@.len() == i,
                forall|j: int| 0 <= j < i ==> (#[trigger] r@[j])@ == self.keys@[j]@,
            decreases self.keys@.len() - i,
        {
            r.push(self.keys[i].clone());
            i += 1;
        }
        proof {
            assert forall|a: int, b: int| 0 <= a < b < r@.len() implies key_before(
                #[trigger] r@[a]@,
                #[trigger] r@[b]@,
            ) by {
                assert(key_before(self.keys@[a]@, self.keys@[b]@));
            }
            assert forall|k: Seq<char>|
                self@.contains_key(k) <==> exists|i: int|
                    0 <= i < r@.len() && #[trigger] r@[i]@ == k by {
                if self@.contains_key(k) {
                    let i = choose|i: int| 0 <= i < self.keys@.len() && #[trigger] self.keys@[i]@ == k;
                    assert(r@[i]@ == k);
                }
                if exists|i: int| 0 <= i < r@.len() && #[trigger] r@[i]@ == k {
                    let i = choose|i: int| 0 <= i < r@.len() && #[trigger] r@[i]@ == k;
                    assert(self.keys@[i]@ == k);
                }
            }
        }
        r
    }

    /// The entry under `key`, if there is one.
    pub fn get(&self, key: &str) -> (r: Option<&Entry>)
        ensures
            match r {
                Some(e) => self@.contains_key(key@) && e@ == self@[key@],
                None => !self@.contains_key(key@),
            },
    {
        proof {
            use_type_invariant(self);
            pairs_view_holds(self.keys@, self.entries@, self.keys@.len());
        }
        match self.find(key) {
            Some(i) => Some(&self.entries[i]),
            None => None,
        }
    }
}

} // verus!
