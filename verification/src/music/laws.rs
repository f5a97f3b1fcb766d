//! What holds of every tree that is built from a report of the disk.

use vstd::prelude::*;
use crate::music::disk::{ItemView, KindView};
use crate::music::name::{art_suffixes, is_audio_name, stem_of};
use crate::music::node::EntryView;
use crate::music::utils::{
    art_among, art_in, art_of, belongs, contents, entry_of, failure_stays, filled, key_of,
    populated, present_at,
};

verus! {

/// Whether the `j`-th of `items` gets an entry, and gets it under `key`.
pub open spec fn stands_under(items: Seq<ItemView>, j: int, key: Seq<char>) -> bool {
    0 <= j < items.len() && belongs(items[j]) && key_of(items[j]) == key
}

/// Whether, among the first `n` of `items`, none behind the `j`-th gets an
/// entry under the name of the `j`-th.
pub open spec fn last_of_its_name(items: Seq<ItemView>, j: int, n: nat) -> bool {
    forall|i: int| j < i < n ==> !#[trigger] stands_under(items, i, key_of(items[j]))
}

/// What lies below the entry of `item`: the tree of what a directory holds,
/// nothing for a file.
pub open spec fn below(item: ItemView) -> Map<Seq<char>, EntryView> {
    match item.kind {
        KindView::Directory(_) => populated(item, Map::empty()).tree,
        _ => Map::empty(),
    }
}

/// A build that has not failed after `n` items had not failed before, and
/// no directory among them failed.
pub proof fn no_failure_before(
    dir: ItemView,
    items: Seq<ItemView>,
    n: nat,
    m: nat,
    node: Map<Seq<char>, EntryView>,
)
    requires
        m <= n <= items.len(),
        filled(dir, items, n, node).failure is None,
    ensures
        filled(dir, items, m, node).failure is None,
        forall|j: int|
            0 <= j < n && #[trigger] items[j].kind is Directory ==> populated(
                items[j],
                Map::empty(),
            ).failure is None,
    decreases n,
{
    if n > 0 {
        no_failure_before(dir, items, (n - 1) as nat, if m < n { m } else { (n - 1) as nat }, node);
    }
}

/// Every name in the tree was in the node before, or is the name of an item
/// that gets an entry. Nothing else is let in: no file without an audio
/// extension, and nothing the host could not look at.
pub proof fn names_come_from_items(
    dir: ItemView,
    items: Seq<ItemView>,
    n: nat,
    node: Map<Seq<char>, EntryView>,
)
    requires
        n <= items.len(),
    ensures
        forall|key: Seq<char>| #[trigger]
            filled(dir, items, n, node).tree.contains_key(key) ==> node.contains_key(key) || exists|
                j: int,
            |
                j < n && #[trigger] stands_under(items, j, key),
    decreases n,
{
    if n > 0 {
        let m = (n - 1) as nat;
        names_come_from_items(dir, items, m, node);
        assert forall|key: Seq<char>| #[trigger]
            filled(dir, items, n, node).tree.contains_key(key) implies node.contains_key(key)
            || exists|j: int| j < n && #[trigger] stands_under(items, j, key) by {
            if filled(dir, items, m, node).tree.contains_key(key) {
                if !node.contains_key(key) {
                    let j = choose|j: int| j < m && #[trigger] stands_under(items, j, key);
                    assert(j < n && stands_under(items, j, key));
                }
            } else {
                assert(stands_under(items, n - 1, key));
            }
        }
    }
}

/// In a build that did not fail, every item that gets an entry has one
/// under its name: every directory, and every file with an audio extension.
pub proof fn items_get_entries(
    dir: ItemView,
    items: Seq<ItemView>,
    n: nat,
    node: Map<Seq<char>, EntryView>,
    j: int,
)
    requires
        n <= items.len(),
        filled(dir, items, n, node).failure is None,
        j < n,
        stands_under(items, j, key_of(items[j])),
    ensures
        filled(dir, items, n, node).tree.contains_key(key_of(items[j])),
    decreases n,
{
    if j < n - 1 {
        no_failure_before(dir, items, n, (n - 1) as nat, node);
        items_get_entries(dir, items, (n - 1) as nat, node, j);
    }
}

/// In a build that did not fail, the entry under a name is that of the last
/// item of that name: its path, its art, the display name of the directory
/// it lies in, and below it the whole tree of what it holds.
pub proof fn last_item_wins(
    dir: ItemView,
    items: Seq<ItemView>,
    n: nat,
    node: Map<Seq<char>, EntryView>,
    j: int,
)
    requires
        n <= items.len(),
        filled(dir, items, n, node).failure is None,
        j < n,
        stands_under(items, j, key_of(items[j])),
        last_of_its_name(items, j, n),
    ensures
        filled(dir, items, n, node).tree.contains_key(key_of(items[j])),
        filled(dir, items, n, node).tree[key_of(items[j])] == entry_of(
            items[j],
            dir,
            below(items[j]),
        ),
    decreases n,
{
    if j < n - 1 {
        no_failure_before(dir, items, n, (n - 1) as nat, node);
        assert(!stands_under(items, n - 1, key_of(items[j])));
        assert forall|i: int| j < i < n - 1 implies !#[trigger] stands_under(
            items,
            i,
            key_of(items[j]),
        ) by {}
        last_item_wins(dir, items, (n - 1) as nat, node, j);
    } else {
        no_failure_before(dir, items, n, (n - 1) as nat, node);
    }
}

/// A name under which none of the items stands keeps what the node held
/// under it, and stays out where the node did not hold it.
pub proof fn other_names_stay(
    dir: ItemView,
    items: Seq<ItemView>,
    n: nat,
    node: Map<Seq<char>, EntryView>,
    key: Seq<char>,
)
    requires
        n <= items.len(),
        forall|j: int| j < n ==> !#[trigger] stands_under(items, j, key),
    ensures
        filled(dir, items, n, node).tree.contains_key(key) == node.contains_key(key),
        node.contains_key(key) ==> filled(dir, items, n, node).tree[key] == node[key],
    decreases n,
{
    if n > 0 {
        other_names_stay(dir, items, (n - 1) as nat, node, key);
        assert(!stands_under(items, n - 1, key));
    }
}

/// Where an item stands under a name, one of them is the last to do so.
pub proof fn some_item_is_last(items: Seq<ItemView>, n: nat, key: Seq<char>)
    requires
        n <= items.len(),
        exists|j: int| j < n && #[trigger] stands_under(items, j, key),
    ensures
        exists|j: int|
            j < n && #[trigger] stands_under(items, j, key) && last_of_its_name(items, j, n),
    decreases n,
{
    if stands_under(items, n - 1, key) {
        assert(last_of_its_name(items, n - 1, n));
    } else {
        let some = choose|j: int| j < n && #[trigger] stands_under(items, j, key);
        assert(some < n - 1 && stands_under(items, some, key));
        some_item_is_last(items, (n - 1) as nat, key);
        let j = choose|j: int|
            j < n - 1 && #[trigger] stands_under(items, j, key) && last_of_its_name(
                items,
                j,
                (n - 1) as nat,
            );
        assert forall|i: int| j < i < n implies !#[trigger] stands_under(items, i, key_of(items[j])) by {}
        assert(j < n && stands_under(items, j, key) && last_of_its_name(items, j, n));
    }
}

/// What the tree holds: in a build that did not fail, every entry that the
/// node did not hold before is the entry of an item of the listing, the
/// last of its name.
pub proof fn every_entry_is_of_an_item(dir: ItemView, node: Map<Seq<char>, EntryView>, key: Seq<char>)
    requires
        populated(dir, node).failure is None,
        populated(dir, node).tree.contains_key(key),
        !node.contains_key(key),
    ensures
        exists|j: int| #[trigger]
            stands_under(contents(dir), j, key) && last_of_its_name(
                contents(dir),
                j,
                contents(dir).len(),
            ) && populated(dir, node).tree[key] == entry_of(
                contents(dir)[j],
                dir,
                below(contents(dir)[j]),
            ),
{
    let items = contents(dir);
    names_come_from_items(dir, items, items.len(), node);
    some_item_is_last(items, items.len(), key);
    let j = choose|j: int|
        j < items.len() && #[trigger] stands_under(items, j, key) && last_of_its_name(
            items,
            j,
            items.len(),
        );
    last_item_wins(dir, items, items.len(), node, j);
}

/// Audio files only: in a build that did not fail, a file whose name no
/// other item of the listing shares, and which the node did not hold
/// before, has an entry just when its extension is an audio extension.
pub proof fn file_has_entry_iff_audio(dir: ItemView, node: Map<Seq<char>, EntryView>, j: int)
    requires
        populated(dir, node).failure is None,
        0 <= j < contents(dir).len(),
        contents(dir)[j].kind is File,
        !node.contains_key(key_of(contents(dir)[j])),
        forall|i: int| i != j ==> !#[trigger] stands_under(contents(dir), i, key_of(contents(dir)[j])),
    ensures
        populated(dir, node).tree.contains_key(key_of(contents(dir)[j])) <==> is_audio_name(
            contents(dir)[j].name,
        ),
{
    let items = contents(dir);
    let key = key_of(items[j]);
    if is_audio_name(items[j].name) {
        items_get_entries(dir, items, items.len(), node, j);
    }
    if populated(dir, node).tree.contains_key(key) {
        names_come_from_items(dir, items, items.len(), node);
        let i = choose|i: int| i < items.len() && #[trigger] stands_under(items, i, key);
        assert(i == j);
    }
}

/// Leaves hold nothing: in a build that did not fail, the entry of an audio
/// file has nothing below it.
pub proof fn leaves_hold_nothing(dir: ItemView, node: Map<Seq<char>, EntryView>, j: int)
    requires
        populated(dir, node).failure is None,
        0 <= j < contents(dir).len(),
        contents(dir)[j].kind is File,
        is_audio_name(contents(dir)[j].name),
        last_of_its_name(contents(dir), j, contents(dir).len()),
    ensures
        populated(dir, node).tree.contains_key(key_of(contents(dir)[j])),
        populated(dir, node).tree[key_of(contents(dir)[j])] == entry_of(
            contents(dir)[j],
            dir,
            Map::empty(),
        ),
        populated(dir, node).tree[key_of(contents(dir)[j])].child == Map::<
            Seq<char>,
            EntryView,
        >::empty(),
{
    let items = contents(dir);
    last_item_wins(dir, items, items.len(), node, j);
}

/// The item that is reached from `dir` by taking, level after level, the
/// item at the given place of the listing.
pub open spec fn walk(dir: ItemView, steps: Seq<int>) -> ItemView
    decreases steps.len(),
{
    if steps.len() == 0 {
        dir
    } else {
        walk(contents(dir)[steps[0]], steps.drop_first())
    }
}

/// Whether each step leads to a directory, and to the last item of its name
/// in its listing.
pub open spec fn leads_down(dir: ItemView, steps: Seq<int>) -> bool
    decreases steps.len(),
{
    steps.len() == 0 || {
        let items = contents(dir);
        let j = steps[0];
        &&& 0 <= j < items.len()
        &&& items[j].kind is Directory
        &&& last_of_its_name(items, j, items.len())
        &&& leads_down(items[j], steps.drop_first())
    }
}

/// The names of the directories on the way, from the top down.
pub open spec fn names_on(dir: ItemView, steps: Seq<int>) -> Seq<Seq<char>>
    decreases steps.len(),
{
    if steps.len() == 0 {
        Seq::empty()
    } else {
        let item = contents(dir)[steps[0]];
        seq![key_of(item)] + names_on(item, steps.drop_first())
    }
}

/// What lies below the last of the entries that are found by taking the
/// given names one after the other; `None` where a name is missing.
pub open spec fn descend(tree: Map<Seq<char>, EntryView>, names: Seq<Seq<char>>) -> Option<
    Map<Seq<char>, EntryView>,
>
    decreases names.len(),
{
    if names.len() == 0 {
        Some(tree)
    } else if tree.contains_key(names[0]) {
        descend(tree[names[0]].child, names.drop_first())
    } else {
        None
    }
}

/// Every directory is there: in a build from the empty node that did not
/// fail, each directory that can be reached from the root has its entry at
/// its depth, under the names of the directories on the way, and below
/// that entry lies the whole tree of what the directory holds.
pub proof fn every_directory_is_there(root: ItemView, steps: Seq<int>)
    requires
        populated(root, Map::empty()).failure is None,
        leads_down(root, steps),
    ensures
        populated(walk(root, steps), Map::empty()).failure is None,
        descend(populated(root, Map::empty()).tree, names_on(root, steps)) == Some(
            populated(walk(root, steps), Map::empty()).tree,
        ),
    decreases steps.len(),
{
    if steps.len() > 0 {
        let items = contents(root);
        let j = steps[0];
        let rest = steps.drop_first();
        let names = names_on(root, steps);
        last_item_wins(root, items, items.len(), Map::empty(), j);
        no_failure_before(root, items, items.len(), items.len(), Map::empty());
        every_directory_is_there(items[j], rest);
        assert(names[0] == key_of(items[j]));
        assert(names.drop_first() =~= names_on(items[j], rest));
    }
}

/// A listing that failed fails the build of its directory.
pub proof fn failed_listing_fails_build(dir: ItemView, node: Map<Seq<char>, EntryView>)
    requires
        dir.kind matches KindView::Directory(listing) && listing.failure is Some,
    ensures
        populated(dir, node).failure is Some,
{
}

/// A failure below stops the build: where the build of a directory in the
/// listing fails, the build of the whole fails, and no item behind that
/// directory has got an entry.
pub proof fn failure_below_stops_build(dir: ItemView, node: Map<Seq<char>, EntryView>, j: int)
    requires
        0 <= j < contents(dir).len(),
        contents(dir)[j].kind is Directory,
        populated(contents(dir)[j], Map::empty()).failure is Some,
    ensures
        populated(dir, node).failure is Some,
        forall|key: Seq<char>| #[trigger]
            populated(dir, node).tree.contains_key(key) ==> node.contains_key(key) || exists|i: int|
                i <= j && #[trigger] stands_under(contents(dir), i, key),
{
    let items = contents(dir);
    let n = (j + 1) as nat;
    assert(filled(dir, items, n, node).failure is Some);
    failure_stays(dir, items, n, items.len(), node);
    names_come_from_items(dir, items, n, node);
    assert forall|key: Seq<char>| #[trigger]
        populated(dir, node).tree.contains_key(key) implies node.contains_key(key) || exists|i: int|
        i <= j && #[trigger] stands_under(items, i, key) by {
        if !node.contains_key(key) {
            let i = choose|i: int| i < n && #[trigger] stands_under(items, i, key);
            assert(i <= j && stands_under(items, i, key));
        }
    }
}

/// What `present_at` finds is there: an item of that name, at or after
/// `from`, that the host could look at, and the first such.
pub proof fn present_at_holds(items: Seq<ItemView>, name: Seq<char>, from: int)
    requires
        0 <= from,
    ensures
        match present_at(items, name, from) {
            Some(i) => from <= i < items.len() && items[i].name == name && !(items[i].kind is Unknown),
            None => forall|i: int|
                from <= i < items.len() ==> !(#[trigger] items[i].name == name && !(items[i].kind is Unknown)),
        },
    decreases items.len() - from,
{
    if from < items.len() {
        present_at_holds(items, name, from + 1);
    }
}

/// Going through the suffixes from one that is at or before the `k`-th,
/// where nothing is there under a suffix before the `k`-th and something is
/// there under the `k`-th, finds what stands under the `k`-th.
proof fn art_among_reaches(items: Seq<ItemView>, stem: Seq<char>, k: int, from: int)
    requires
        0 <= from <= k < art_suffixes().len(),
        present_at(items, stem + art_suffixes()[k], 0) is Some,
        forall|earlier: int|
            0 <= earlier < k ==> present_at(items, stem + #[trigger] art_suffixes()[earlier], 0) is None,
    ensures
        art_among(items, stem, from) == Some(
            items[present_at(items, stem + art_suffixes()[k], 0).unwrap()].path,
        ),
    decreases k - from,
{
    if from < k {
        art_among_reaches(items, stem, k, from + 1);
    }
}

/// Art by rank: where something is there under the stem and the `k`-th
/// suffix, and nothing under the stem and a suffix before the `k`-th, the
/// art is what stands under the `k`-th: `.webp` wins over `.png`.
pub proof fn art_goes_by_rank(items: Seq<ItemView>, stem: Seq<char>, k: int)
    requires
        stem.len() > 0,
        0 <= k < art_suffixes().len(),
        present_at(items, stem + art_suffixes()[k], 0) is Some,
        forall|earlier: int|
            0 <= earlier < k ==> present_at(items, stem + #[trigger] art_suffixes()[earlier], 0) is None,
    ensures
        art_in(items, stem) == Some(
            items[present_at(items, stem + art_suffixes()[k], 0).unwrap()].path,
        ),
{
    art_among_reaches(items, stem, k, 0);
}

/// The art that is found is the path of something that is there.
pub proof fn art_among_is_there(items: Seq<ItemView>, stem: Seq<char>, k: int)
    requires
        0 <= k,
    ensures
        match art_among(items, stem, k) {
            Some(path) => exists|i: int|
                0 <= i < items.len() && !(#[trigger] items[i].kind is Unknown) && items[i].path == path,
            None => true,
        },
    decreases art_suffixes().len() - k,
{
    if k < art_suffixes().len() {
        let name = stem + art_suffixes()[k];
        present_at_holds(items, name, 0);
        match present_at(items, name, 0) {
            Some(i) => {
                assert(!(items[i].kind is Unknown) && items[i].path == art_among(items, stem, k).unwrap());
            },
            None => {
                art_among_is_there(items, stem, k + 1);
            },
        }
    }
}

/// The parent's art is the fallback: where an item has no art of its own,
/// its art is the art named after its parent, inside the parent.
pub proof fn art_falls_back(item: ItemView, parent: ItemView)
    requires
        art_in(
            if item.kind is Directory {
                contents(item)
            } else {
                contents(parent)
            },
            stem_of(item.name),
        ) is None,
        art_in(contents(parent), stem_of(parent.name)) is Some,
    ensures
        art_of(item, parent) == art_in(contents(parent), stem_of(parent.name)).unwrap(),
{
}

/// Without art of its own and without art of the parent, the art of an
/// item is the empty path.
pub proof fn no_art_is_empty(item: ItemView, parent: ItemView)
    requires
        art_in(
            if item.kind is Directory {
                contents(item)
            } else {
                contents(parent)
            },
            stem_of(item.name),
        ) is None,
        art_in(contents(parent), stem_of(parent.name)) is None,
    ensures
        art_of(item, parent) == Seq::<char>::empty(),
{
}

/// The art of an item is the empty path or the path of something that was
/// there, in the item or in its parent.
pub proof fn art_is_there_or_empty(item: ItemView, parent: ItemView)
    ensures
        art_of(item, parent).len() == 0 || (exists|i: int|
            0 <= i < contents(item).len() && !(#[trigger] contents(item)[i].kind is Unknown)
                && contents(item)[i].path == art_of(item, parent)) || (exists|i: int|
            0 <= i < contents(parent).len() && !(#[trigger] contents(parent)[i].kind is Unknown)
                && contents(parent)[i].path == art_of(item, parent)),
{
    art_among_is_there(contents(item), stem_of(item.name), 0);
    art_among_is_there(contents(parent), stem_of(item.name), 0);
    art_among_is_there(contents(parent), stem_of(parent.name), 0);
}

/// Whether every entry of `tree`, at every depth, is the entry of an item
/// that `dir` holds at that depth and that gets an entry: with its path,
/// its art and the display name of its directory, with nothing below it
/// where the item is a file, and with a tree of the same kind below it
/// where the item is a directory.
pub open spec fn grown_from(tree: Map<Seq<char>, EntryView>, dir: ItemView) -> bool
    decreases dir,
{
    forall|key: Seq<char>| #[trigger]
        tree.contains_key(key) ==> exists|j: int| #[trigger]
            stands_under(contents(dir), j, key) && entry_grown_from(
                tree[key],
                contents(dir)[j],
                dir,
            )
}

/// Whether `entry` is the entry of `item`, which lies in `dir`, and what
/// lies below it has grown from `item`.
pub open spec fn entry_grown_from(entry: EntryView, item: ItemView, dir: ItemView) -> bool
    decreases dir, 0nat,
{
    &&& contents(dir).contains(item)
    &&& entry.src == item.path
    &&& entry.art == art_of(item, dir)
    &&& entry.parent == stem_of(dir.name)
    &&& match item.kind {
        KindView::Directory(_) => grown_from(entry.child, item),
        _ => entry.child == Map::<Seq<char>, EntryView>::empty(),
    }
}

/// Nothing but the disk: every entry of a tree that was built from the
/// empty node, at every depth and whether or not the build failed, is the
/// entry of a directory or of an audio file that stands at that depth on
/// disk, and the entry of a file has nothing below it.
pub proof fn tree_is_grown_from_disk(dir: ItemView)
    ensures
        grown_from(populated(dir, Map::empty()).tree, dir),
    decreases dir, 1nat, 0nat,
{
    match dir.kind {
        KindView::Directory(listing) => {
            first_items_are_grown_from_disk(dir, listing.items.len());
        },
        _ => {},
    }
}

/// Every entry of the tree that the first `n` items of `dir` make is the
/// entry of an item of `dir`.
proof fn first_items_are_grown_from_disk(dir: ItemView, n: nat)
    requires
        n <= contents(dir).len(),
    ensures
        grown_from(filled(dir, contents(dir), n, Map::empty()).tree, dir),
    decreases dir, 0nat, n,
{
    if n > 0 {
        let items = contents(dir);
        let m = (n - 1) as nat;
        let item = items[n - 1];
        first_items_are_grown_from_disk(dir, m);
        let so_far = filled(dir, items, m, Map::empty());
        let now = filled(dir, items, n, Map::empty());
        if item.kind is Directory {
            tree_is_grown_from_disk(item);
        }
        assert forall|key: Seq<char>| #[trigger] now.tree.contains_key(key) implies exists|j: int| #[trigger]
            stands_under(items, j, key) && entry_grown_from(now.tree[key], items[j], dir) by {
            if so_far.tree.contains_key(key) && now.tree[key] == so_far.tree[key] {
                let j = choose|j: int| #[trigger]
                    stands_under(items, j, key) && entry_grown_from(so_far.tree[key], items[j], dir);
                assert(stands_under(items, j, key) && entry_grown_from(now.tree[key], items[j], dir));
            } else {
                assert(stands_under(items, n - 1, key));
                assert(entry_grown_from(now.tree[key], items[n - 1], dir));
            }
        }
    }
}

} // verus!
