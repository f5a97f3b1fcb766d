//! Building the tree from a report of the disk, and finding the cover art
//! of each entry on the way.

use vstd::prelude::*;
use crate::music::disk::{IoError, IoErrorView, Item, ItemView, Kind, KindView, items_view};
use crate::music::name::{art_suffix_list, art_suffixes, is_audio_file, is_audio_name, stem, stem_of};
use crate::music::node::{Entry, EntryView, Node};
use crate::music::order::same;

verus! {

/// The place of the first item at or after `from` that is there under
/// `name`.
pub open spec fn present_at(items: Seq<ItemView>, name: Seq<char>, from: int) -> Option<int>
    decreases items.len() - from,
{
    if from < 0 || from >= items.len() {
        None
    } else if items[from].name == name && !(items[from].kind is Unknown) {
        Some(from)
    } else {
        present_at(items, name, from + 1)
    }
}

/// The path of the art that `items` hold for `stem`, trying the suffixes
/// from the `k`-th on: that of the first suffix under which, behind the
/// stem, something is there.
pub open spec fn art_among(items: Seq<ItemView>, stem: Seq<char>, k: int) -> Option<Seq<char>>
    decreases art_suffixes().len() - k,
{
    if k < 0 || k >= art_suffixes().len() {
        None
    } else {
        match present_at(items, stem + art_suffixes()[k], 0) {
            Some(i) => Some(items[i].path),
            None => art_among(items, stem, k + 1),
        }
    }
}

/// The path of the art that `items` hold for `stem`. An empty stem has no
/// art.
pub open spec fn art_in(items: Seq<ItemView>, stem: Seq<char>) -> Option<Seq<char>> {
    if stem.len() == 0 {
        None
    } else {
        art_among(items, stem, 0)
    }
}

/// What a directory holds; nothing, where the item is no directory.
pub open spec fn contents(item: ItemView) -> Seq<ItemView> {
    match item.kind {
        KindView::Directory(listing) => listing.items,
        _ => Seq::empty(),
    }
}

/// The cover art of `item`, which lies in `parent`.
///
/// First its own: art named after the item, inside it where it is a
/// directory, beside it where it is not. Then its parent's: art named after
/// the parent, inside the parent. The empty path where there is neither.
pub open spec fn art_of(item: ItemView, parent: ItemView) -> Seq<char> {
    let around = if item.kind is Directory {
        contents(item)
    } else {
        contents(parent)
    };
    match art_in(around, stem_of(item.name)) {
        Some(path) => path,
        None => match art_in(contents(parent), stem_of(parent.name)) {
            Some(path) => path,
            None => Seq::empty(),
        },
    }
}

/// How a build ended: the tree as it stands, and the failure that stopped
/// the build, if one did.
pub struct Outcome {
    pub tree: Map<Seq<char>, EntryView>,
    pub failure: Option<IoErrorView>,
}

/// The name under which `item` stands in the tree: its stem.
pub open spec fn key_of(item: ItemView) -> Seq<char> {
    stem_of(item.name)
}

/// Whether `item` gets an entry: directories do, and files with an audio
/// extension.
pub open spec fn belongs(item: ItemView) -> bool {
    match item.kind {
        KindView::Directory(_) => true,
        KindView::File => is_audio_name(item.name),
        KindView::Unknown => false,
    }
}

/// The entry of `item`, which lies in the directory `dir`, with `child`
/// below it.
pub open spec fn entry_of(item: ItemView, dir: ItemView, child: Map<Seq<char>, EntryView>) -> EntryView {
    EntryView { src: item.path, art: art_of(item, dir), parent: stem_of(dir.name), child }
}

/// The tree that `node` becomes when it is filled from `dir`.
///
/// Where `dir` is no directory nothing happens. Else its items are taken in
/// the order of the listing, and at the end the failure of the listing
/// itself, if it had one, is the failure of the build.
pub open spec fn populated(dir: ItemView, node: Map<Seq<char>, EntryView>) -> Outcome
    decreases dir,
{
    match dir.kind {
        KindView::Directory(listing) => {
            let taken = filled(dir, listing.items, listing.items.len(), node);
            if taken.failure is Some {
                taken
            } else {
                Outcome { tree: taken.tree, failure: listing.failure }
            }
        },
        _ => Outcome { tree: node, failure: None },
    }
}

/// The tree that `node` becomes when the first `n` of `items`, which lie in
/// `dir`, are taken.
///
/// After a failure nothing more is taken. A directory gets its entry, with
/// the tree of what it holds below it, and a failure down there is a
/// failure here. An audio file gets an entry with nothing below it.
/// Anything else is passed over. An entry takes the place of one that
/// stood under the same name.
pub open spec fn filled(
    dir: ItemView,
    items: Seq<ItemView>,
    n: nat,
    node: Map<Seq<char>, EntryView>,
) -> Outcome
    decreases items, n,
{
    if n == 0 || n > items.len() {
        Outcome { tree: node, failure: None }
    } else {
        let so_far = filled(dir, items, (n - 1) as nat, node);
        let item = items[n - 1];
        if so_far.failure is Some {
            so_far
        } else {
            match item.kind {
                KindView::Directory(_) => {
                    let below = populated(item, Map::empty());
                    Outcome {
                        tree: so_far.tree.insert(key_of(item), entry_of(item, dir, below.tree)),
                        failure: below.failure,
                    }
                },
                KindView::File => if is_audio_name(item.name) {
                    Outcome {
                        tree: so_far.tree.insert(key_of(item), entry_of(item, dir, Map::empty())),
                        failure: None,
                    }
                } else {
                    so_far
                },
                KindView::Unknown => so_far,
            }
        }
    }
}

/// Once a build has failed, taking more items changes nothing.
pub proof fn failure_stays(
    dir: ItemView,
    items: Seq<ItemView>,
    n: nat,
    m: nat,
    node: Map<Seq<char>, EntryView>,
)
    requires
        n <= m <= items.len(),
        filled(dir, items, n, node).failure is Some,
    ensures
        filled(dir, items, m, node) == filled(dir, items, n, node),
    decreases m,
{
    if n < m {
        failure_stays(dir, items, n, (m - 1) as nat, node);
    }
}

/// The place of the first item that is there under `name`.
fn find_present(items: &Vec<Item>, name: &str) -> (r: Option<usize>)
    ensures
        match r {
            Some(i) => present_at(items_view(items@), name@, 0) == Some(i as int) && i < items@.len(),
            None => present_at(items_view(items@), name@, 0) is None,
        },
{
    let mut i: usize = 0;
    while i < items.len()
        invariant
            i <= items@.len(),
            present_at(items_view(items@), name@, 0) == present_at(items_view(items@), name@, i as int),
        decreases items@.len() - i,
    {
        let item = &items[i];
        let there = match &item.kind {
            Kind::Unknown => false,
            _ => true,
        };
        if there && same(item.name.as_str(), name) {
            return Some(i);
        }
        i += 1;
    }
    None
}

/// The path of the art that `items` hold for `stem`.
fn find_art(items: &Vec<Item>, stem: &str) -> (r: Option<String>)
    ensures
        match r {
            Some(path) => art_in(items_view(items@), stem@) == Some(path@),
            None => art_in(items_view(items@), stem@) is None,
        },
{
    if stem.unicode_len() == 0 {
        return None;
    }
    let suffixes = art_suffix_list();
    let mut k: usize = 0;
    while k < suffixes.len()
        invariant
            k <= suffixes@.len(),
            stem@.len() != 0,
            suffixes.deep_view() == art_suffixes(),
            art_among(items_view(items@), stem@, 0) == art_among(items_view(items@), stem@, k as int),
        decreases suffixes@.len() - k,
    {
        let wanted = String::from_str(stem).concat(suffixes[k].as_str());
        proof {
            assert(suffixes.deep_view()[k as int] == suffixes@[k as int]@);
            assert(wanted@ == stem@ + art_suffixes()[k as int]);
        }
        match find_present(items, wanted.as_str()) {
            Some(i) => {
                proof {
                    assert(items_view(items@)[i as int] == items@[i as int].view());
                }
                return Some(items[i].path.clone());
            },
            None => {},
        }
        k += 1;
    }
    None
}

/// The cover art of `item`, which lies in `parent`: the path of the art
/// found, or the empty path.
pub fn update_art(item: &Item, parent: &Item) -> (art: String)
    ensures
        art@ == art_of(item@, parent@),
{
    let nothing: Vec<Item> = Vec::new();
    proof {
        assert(items_view(nothing@) =~= Seq::<ItemView>::empty());
    }
    let beside: &Vec<Item> = match &parent.kind {
        Kind::Directory(listing) => &listing.items,
        _ => &nothing,
    };
    let around: &Vec<Item> = match &item.kind {
        Kind::Directory(listing) => &listing.items,
        _ => beside,
    };
    let own = stem(item.name.as_str());
    match find_art(around, own.as_str()) {
        Some(path) => path,
        None => {
            let above = stem(parent.name.as_str());
            match find_art(beside, above.as_str()) {
                Some(path) => path,
                None => String::new(),
            }
        },
    }
}

/// Fills `node` from the directory `dir`: an entry for each directory and
/// each audio file in it, and below each directory the tree of what it
/// holds.
///
/// The first failure of a listing stops the build and is handed back; the
/// node then holds what was built up to there. Where `dir` is no directory
/// the node stays as it is.
pub fn populate(dir: &Item, node: &mut Node) -> (r: Result<(), IoError>)
    ensures
        final(node)@ == populated(dir@, old(node)@).tree,
        match r {
            Ok(_) => populated(dir@, old(node)@).failure is None,
            Err(e) => populated(dir@, old(node)@).failure == Some(e@),
        },
    decreases dir,
{
    match &dir.kind {
        Kind::Directory(listing) => {
            let parent = stem(dir.name.as_str());
            let ghost items = items_view(listing.items@);
            let mut i: usize = 0;
            while i < listing.items.len()
                invariant
                    i <= listing.items@.len(),
                    dir.kind == Kind::Directory(*listing),
                    items == items_view(listing.items@),
                    parent@ == stem_of(dir@.name),
                    node@ == filled(dir@, items, i as nat, old(node)@).tree,
                    filled(dir@, items, i as nat, old(node)@).failure is None,
                decreases listing.items@.len() - i,
            {
                let item = &listing.items[i];
                proof {
                    assert(items[i as int] == item@);
                }
                match &item.kind {
                    Kind::Directory(_) => {
                        let name = stem(item.name.as_str());
                        let entry = Entry {
                            src: item.path.clone(),
                            art: update_art(item, dir),
                            parent: parent.clone(),
                            child: Node::new(),
                        };
                        node.insert(name.clone(), entry);
                        let below = match node.get_mut(name.as_str()) {
                            Some(e) => populate(item, &mut e.child),
                            None => Ok(()),
                        };
                        proof {
                            let so_far = filled(dir@, items, i as nat, old(node)@);
                            let under = populated(item@, Map::empty());
                            assert(node@ =~= so_far.tree.insert(
                                key_of(item@),
                                entry_of(item@, dir@, under.tree),
                            ));
                        }
                        match below {
                            Err(failure) => {
                                proof {
                                    failure_stays(
                                        dir@,
                                        items,
                                        (i + 1) as nat,
                                        items.len(),
                                        old(node)@,
                                    );
                                }
                                return Err(failure);
                            },
                            Ok(_) => {},
                        }
                    },
                    Kind::File => {
                        if is_audio_file(item.name.as_str()) {
                            let name = stem(item.name.as_str());
                            let entry = Entry {
                                src: item.path.clone(),
                                art: update_art(item, dir),
                                parent: parent.clone(),
                                child: Node::new(),
                            };
                            node.insert(name, entry);
                        }
                    },
                    Kind::Unknown => {},
                }
                i += 1;
            }
            match &listing.failure {
                Some(failure) => Err(failure.copy()),
                None => Ok(()),
            }
        },
        _ => Ok(()),
    }
}

} // verus!
