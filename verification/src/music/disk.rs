//! What the host found on disk, as plain values: the report that the tree is
//! built from.
//!
//! The library reads no disk. Whoever calls it lists the directories, and
//! hands over what was there: for each directory its items in the order in
//! which they were listed, and the failure that ended the listing, if one
//! did. Names and paths are taken as the host gives them.

use vstd::prelude::*;

verus! {

/// Why the host could not read something.
#[derive(Clone, Copy, Debug, PartialEq, Eq, Structural)]
pub enum FailureKind {
    NotFound,
    PermissionDenied,
    Other,
}

/// A failure of the host to list a directory or to read one of its items.
#[derive(Debug)]
pub struct IoError {
    /// Why it failed.
    pub kind: FailureKind,
    /// The path at which it failed.
    pub path: String,
}

/// What an `IoError` stands for.
pub struct IoErrorView {
    pub kind: FailureKind,
    pub path: Seq<char>,
}

/// What the host found under a name.
#[derive(Debug)]
pub enum Kind {
    /// A directory, with what listing it gave.
    Directory(Listing),
    /// Something that is there and is no directory.
    File,
    /// Something the host could not look at, such as a link that leads
    /// nowhere. It counts as absent.
    Unknown,
}

/// One name on disk.
#[derive(Debug)]
pub struct Item {
    /// The last component of its path, or the empty text where the path has
    /// none.
    pub name: String,
    /// Its path.
    pub path: String,
    /// What is there.
    pub kind: Kind,
}

/// What listing a directory gave.
#[derive(Debug)]
pub struct Listing {
    /// The items that were read, in the order in which they were read.
    pub items: Vec<Item>,
    /// The failure that ended the listing, if one did. Where the directory
    /// could not be opened at all, no item was read.
    pub failure: Option<IoError>,
}

/// What a `Kind` stands for.
pub enum KindView {
    Directory(ListingView),
    File,
    Unknown,
}

/// What an `Item` stands for.
pub struct ItemView {
    pub name: Seq<char>,
    pub path: Seq<char>,
    pub kind: KindView,
}

/// What a `Listing` stands for.
pub struct ListingView {
    pub items: Seq<ItemView>,
    pub failure: Option<IoErrorView>,
}

/// What each of `items` stands for, in the same order.
pub open spec fn items_view(items: Seq<Item>) -> Seq<ItemView>
    decreases items,
{
    Seq::new(
        items.len(),
        |i: int|
            if 0 <= i < items.len() {
                items[i].view()
            } else {
                arbitrary()
            },
    )
}

impl IoError {
    /// What this failure stands for.
    pub open spec fn view(&self) -> IoErrorView {
        IoErrorView { kind: self.kind, path: self.path@ }
    }

    /// A failure of the given kind at the given path.
    pub fn new(kind: FailureKind, path: &str) -> (r: IoError)
        ensures
            r@ == (IoErrorView { kind, path: path@ }),
    {
        IoError { kind, path: String::from_str(path) }
    }

    /// A failure of the same kind at the same path.
    pub fn copy(&self) -> (r: IoError)
        ensures
            r@ == self@,
    {
        IoError { kind: self.kind, path: self.path.clone() }
    }
}

impl Kind {
    /// What this kind stands for.
    pub open spec fn view(&self) -> KindView
        decreases self,
    {
        match self {
            Kind::Directory(listing) => KindView::Directory(listing.view()),
            Kind::File => KindView::File,
            Kind::Unknown => KindView::Unknown,
        }
    }
}

impl Item {
    /// What this item stands for.
    pub open spec fn view(&self) -> ItemView
        decreases self,
    {
        ItemView { name: self.name@, path: self.path@, kind: self.kind.view() }
    }

    /// Something that is there and is no directory.
    pub fn file(name: &str, path: &str) -> (r: Item)
        ensures
            r@ == (ItemView { name: name@, path: path@, kind: KindView::File }),
    {
        Item { name: String::from_str(name), path: String::from_str(path), kind: Kind::File }
    }

    /// Something the host could not look at.
    pub fn unknown(name: &str, path: &str) -> (r: Item)
        ensures
            r@ == (ItemView { name: name@, path: path@, kind: KindView::Unknown }),
    {
        Item { name: String::from_str(name), path: String::from_str(path), kind: Kind::Unknown }
    }

    /// A directory with what listing it gave.
    pub fn directory(name: &str, path: &str, listing: Listing) -> (r: Item)
        ensures
            r@ == (ItemView { name: name@, path: path@, kind: KindView::Directory(listing@) }),
    {
        Item {
            name: String::from_str(name),
            path: String::from_str(path),
            kind: Kind::Directory(listing),
        }
    }
}

impl Listing {
    /// The listing that read all of `items` and did not fail.
    pub fn of(items: Vec<Item>) -> (r: Listing)
        ensures
            r@ == (ListingView { items: items_view(items@), failure: None }),
    {
        Listing { items, failure: None }
    }

    /// The listing that read `items` and then failed.
    pub fn failed(items: Vec<Item>, failure: IoError) -> (r: Listing)
        ensures
            r@ == (ListingView { items: items_view(items@), failure: Some(failure@) }),
    {
        Listing { items, failure: Some(failure) }
    }

    /// What this listing stands for.
    pub open spec fn view(&self) -> ListingView
        decreases self,
    {
        ListingView {
            items: items_view(self.items@),
            failure: match self.failure {
                Some(e) => Some(e.view()),
                None => None,
            },
        }
    }
}

} // verus!
