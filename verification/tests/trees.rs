use vfh::music::{populate, Entry, FailureKind, IoError, Item, Kind, Listing, Node};

fn file_in(dir: &str, name: &str) -> Item {
    Item::file(name, &format!("{}/{}", dir, name))
}

fn dir_in(parent: &str, name: &str, items: Vec<Item>) -> Item {
    Item::directory(name, &format!("{}/{}", parent, name), Listing::of(items))
}

fn root_of(name: &str, items: Vec<Item>) -> Item {
    Item::directory(name, name, Listing::of(items))
}

fn built(root: &Item) -> Node {
    let mut tree = Node::new();
    assert!(populate(root, &mut tree).is_ok());
    tree
}

fn count_entries(node: &Node) -> usize {
    let mut n = 0;
    for k in node.keys() {
        n += 1 + count_entries(&node.get(&k).unwrap().child);
    }
    n
}

#[test]
fn only_audio_files_get_entries() {
    let root = root_of(
        "Music",
        vec![
            file_in("Music", "a.mp3"),
            file_in("Music", "b.ogg"),
            file_in("Music", "c.opus"),
            file_in("Music", "d.wav"),
            file_in("Music", "e.aac"),
            file_in("Music", "f.flac"),
            file_in("Music", "g.txt"),
            file_in("Music", "h.png"),
            file_in("Music", "i.MP3"),
            file_in("Music", "j"),
            file_in("Music", ".mp3"),
            file_in("Music", "k.mp3.bak"),
            file_in("Music", "l.mp4"),
        ],
    );
    let tree = built(&root);
    assert_eq!(tree.keys(), vec!["a", "b", "c", "d", "e", "f"]);
    for k in ["g", "h", "i", "j", ".mp3", "k", "k.mp3", "l", "mp3", ""] {
        assert!(!tree.contains_key(k), "{:?}", k);
    }
}

#[test]
fn an_entry_holds_path_art_and_parent() {
    let root = root_of(
        "Music",
        vec![file_in("Music", "song.flac"), file_in("Music", "song.png")],
    );
    let tree = built(&root);
    assert_eq!(tree.len(), 1);
    let e = tree.get("song").unwrap();
    assert_eq!(e.src, "Music/song.flac");
    assert_eq!(e.art, "Music/song.png");
    assert_eq!(e.parent, "Music");
    assert!(e.child.is_empty());
}

#[test]
fn leaves_have_nothing_below_them() {
    let root = root_of(
        "Music",
        vec![
            file_in("Music", "a.mp3"),
            dir_in(
                "Music",
                "Artist",
                vec![
                    file_in("Music/Artist", "b.ogg"),
                    dir_in("Music/Artist", "Album", vec![file_in("Music/Artist/Album", "c.wav")]),
                ],
            ),
        ],
    );
    let tree = built(&root);
    assert!(tree.get("a").unwrap().child.is_empty());
    let artist = tree.get("Artist").unwrap();
    assert!(artist.child.get("b").unwrap().child.is_empty());
    let album = artist.child.get("Album").unwrap();
    assert!(album.child.get("c").unwrap().child.is_empty());
    assert_eq!(album.child.get("c").unwrap().child.len(), 0);
}

#[test]
fn every_directory_has_its_entry_at_its_depth() {
    let root = root_of(
        "Music",
        vec![
            dir_in(
                "Music",
                "A",
                vec![
                    dir_in(
                        "Music/A",
                        "A1",
                        vec![
                            file_in("Music/A/A1", "x.mp3"),
                            file_in("Music/A/A1", "y.mp3"),
                            file_in("Music/A/A1", "notes.txt"),
                        ],
                    ),
                    dir_in("Music/A", "A2", vec![]),
                    file_in("Music/A", "loose.ogg"),
                ],
            ),
            dir_in("Music", "B", vec![dir_in("Music/B", "B1", vec![dir_in("Music/B/B1", "deep", vec![])])]),
            dir_in("Music", "Empty", vec![]),
        ],
    );
    let tree = built(&root);
    assert_eq!(tree.keys(), vec!["A", "B", "Empty"]);
    let a = tree.get("A").unwrap();
    assert_eq!(a.src, "Music/A");
    assert_eq!(a.parent, "Music");
    assert_eq!(a.child.keys(), vec!["A1", "A2", "loose"]);
    let a1 = a.child.get("A1").unwrap();
    assert_eq!(a1.src, "Music/A/A1");
    assert_eq!(a1.parent, "A");
    assert_eq!(a1.child.keys(), vec!["x", "y"]);
    assert_eq!(a1.child.get("x").unwrap().src, "Music/A/A1/x.mp3");
    assert_eq!(a1.child.get("x").unwrap().parent, "A1");
    assert!(a.child.get("A2").unwrap().child.is_empty());
    let b = tree.get("B").unwrap();
    assert_eq!(b.child.keys(), vec!["B1"]);
    let deep = b.child.get("B1").unwrap().child.get("deep").unwrap();
    assert_eq!(deep.src, "Music/B/B1/deep");
    assert_eq!(deep.parent, "B1");
    assert!(deep.child.is_empty());
    assert!(tree.get("Empty").unwrap().child.is_empty());
    assert_eq!(count_entries(&tree), 10);
}

#[test]
fn artist_album_song() {
    let root = root_of(
        "Music",
        vec![dir_in(
            "Music",
            "ArtistA",
            vec![
                file_in("Music/ArtistA", "ArtistA.png"),
                dir_in(
                    "Music/ArtistA",
                    "Album1",
                    vec![file_in("Music/ArtistA/Album1", "song.mp3")],
                ),
            ],
        )],
    );
    let tree = built(&root);
    assert_eq!(tree.keys(), vec!["ArtistA"]);
    let artist = tree.get("ArtistA").unwrap();
    assert_eq!(artist.src, "Music/ArtistA");
    assert_eq!(artist.art, "Music/ArtistA/ArtistA.png");
    assert_eq!(artist.parent, "Music");
    assert_eq!(artist.child.keys(), vec!["Album1"]);
    let album = artist.child.get("Album1").unwrap();
    assert_eq!(album.src, "Music/ArtistA/Album1");
    assert_eq!(album.art, "Music/ArtistA/ArtistA.png");
    assert_eq!(album.parent, "ArtistA");
    assert_eq!(album.child.keys(), vec!["song"]);
    let song = album.child.get("song").unwrap();
    assert_eq!(song.src, "Music/ArtistA/Album1/song.mp3");
    assert_eq!(song.art, "");
    assert_eq!(song.parent, "Album1");
    assert!(song.child.is_empty());
}

#[test]
fn artist_art_beside_the_artist_is_not_found() {
    let root = root_of(
        "Music",
        vec![
            file_in("Music", "ArtistA.png"),
            dir_in(
                "Music",
                "ArtistA",
                vec![dir_in(
                    "Music/ArtistA",
                    "Album1",
                    vec![file_in("Music/ArtistA/Album1", "song.mp3")],
                )],
            ),
        ],
    );
    let tree = built(&root);
    assert_eq!(tree.keys(), vec!["ArtistA"]);
    let artist = tree.get("ArtistA").unwrap();
    assert_eq!(artist.art, "");
    let album = artist.child.get("Album1").unwrap();
    assert_eq!(album.art, "");
    assert_eq!(album.child.get("song").unwrap().art, "");
}

#[test]
fn art_of_the_root_goes_down_one_level() {
    let root = root_of(
        "Music",
        vec![
            file_in("Music", "Music.jpeg"),
            file_in("Music", "a.mp3"),
            dir_in("Music", "Artist", vec![file_in("Music/Artist", "b.mp3")]),
        ],
    );
    let tree = built(&root);
    assert_eq!(tree.get("a").unwrap().art, "Music/Music.jpeg");
    assert_eq!(tree.get("Artist").unwrap().art, "Music/Music.jpeg");
    assert_eq!(tree.get("Artist").unwrap().child.get("b").unwrap().art, "");
}

#[test]
fn a_failed_listing_below_stops_the_build() {
    let denied = IoError::new(FailureKind::PermissionDenied, "Music/locked");
    let root = root_of(
        "Music",
        vec![
            file_in("Music", "first.mp3"),
            dir_in("Music", "open", vec![file_in("Music/open", "in.mp3")]),
            Item::directory("locked", "Music/locked", Listing::failed(vec![], denied)),
            file_in("Music", "later.mp3"),
            dir_in("Music", "after", vec![file_in("Music/after", "x.mp3")]),
        ],
    );
    let mut tree = Node::new();
    let r = populate(&root, &mut tree);
    let e = r.unwrap_err();
    assert_eq!(e.kind, FailureKind::PermissionDenied);
    assert_eq!(e.path, "Music/locked");
    assert_eq!(tree.keys(), vec!["first", "locked", "open"]);
    assert!(!tree.contains_key("later"));
    assert!(!tree.contains_key("after"));
    assert!(tree.get("locked").unwrap().child.is_empty());
    assert_eq!(tree.get("open").unwrap().child.keys(), vec!["in"]);
}

#[test]
fn a_failure_deep_down_stops_the_whole_build() {
    let gone = IoError::new(FailureKind::NotFound, "Music/A/A1/gone");
    let root = root_of(
        "Music",
        vec![
            dir_in(
                "Music",
                "A",
                vec![
                    dir_in(
                        "Music/A",
                        "A1",
                        vec![
                            file_in("Music/A/A1", "kept.mp3"),
                            Item::directory(
                                "gone",
                                "Music/A/A1/gone",
                                Listing::failed(vec![file_in("Music/A/A1/gone", "seen.mp3")], gone),
                            ),
                            file_in("Music/A/A1", "missed.mp3"),
                        ],
                    ),
                    file_in("Music/A", "missed.ogg"),
                ],
            ),
            file_in("Music", "missed.flac"),
        ],
    );
    let mut tree = Node::new();
    let e = populate(&root, &mut tree).unwrap_err();
    assert_eq!(e.kind, FailureKind::NotFound);
    assert_eq!(e.path, "Music/A/A1/gone");
    assert_eq!(tree.keys(), vec!["A"]);
    let a = tree.get("A").unwrap();
    assert_eq!(a.child.keys(), vec!["A1"]);
    let a1 = a.child.get("A1").unwrap();
    assert_eq!(a1.child.keys(), vec!["gone", "kept"]);
    assert_eq!(a1.child.get("gone").unwrap().child.keys(), vec!["seen"]);
    assert_eq!(count_entries(&tree), 5);
}

#[test]
fn a_failed_listing_of_the_root_fails_the_build() {
    let other = IoError::new(FailureKind::Other, "Music");
    let root = Item::directory(
        "Music",
        "Music",
        Listing::failed(vec![file_in("Music", "a.mp3"), file_in("Music", "b.txt")], other),
    );
    let mut tree = Node::new();
    let e = populate(&root, &mut tree).unwrap_err();
    assert_eq!(e.kind, FailureKind::Other);
    assert_eq!(e.path, "Music");
    assert_eq!(tree.keys(), vec!["a"]);
}

#[test]
fn the_first_failure_is_the_one_handed_back() {
    let one = IoError::new(FailureKind::PermissionDenied, "one");
    let two = IoError::new(FailureKind::NotFound, "two");
    let three = IoError::new(FailureKind::Other, "three");
    let root = Item::directory(
        "Music",
        "Music",
        Listing::failed(
            vec![
                Item::directory("one", "Music/one", Listing::failed(vec![], one)),
                Item::directory("two", "Music/two", Listing::failed(vec![], two)),
            ],
            three,
        ),
    );
    let mut tree = Node::new();
    let e = populate(&root, &mut tree).unwrap_err();
    assert_eq!(e.kind, FailureKind::PermissionDenied);
    assert_eq!(e.path, "one");
    assert_eq!(tree.keys(), vec!["one"]);
}

#[test]
fn a_root_that_is_no_directory_gives_an_empty_tree() {
    let mut tree = Node::new();
    assert!(populate(&Item::file("song.mp3", "song.mp3"), &mut tree).is_ok());
    assert!(tree.is_empty());
    assert!(populate(&Item::unknown("Music", "Music"), &mut tree).is_ok());
    assert!(tree.is_empty());
}

#[test]
fn an_empty_directory_gives_an_empty_tree() {
    let tree = built(&root_of("Music", vec![]));
    assert!(tree.is_empty());
    assert_eq!(tree.len(), 0);
}

#[test]
fn what_the_host_could_not_look_at_is_passed_over() {
    let root = root_of(
        "Music",
        vec![Item::unknown("dangling.mp3", "Music/dangling.mp3"), file_in("Music", "real.mp3")],
    );
    let tree = built(&root);
    assert_eq!(tree.keys(), vec!["real"]);
}

#[test]
fn of_two_items_of_one_name_the_later_one_stays() {
    let root = root_of(
        "Music",
        vec![
            dir_in("Music", "song", vec![file_in("Music/song", "inner.mp3")]),
            file_in("Music", "song.mp3"),
        ],
    );
    let tree = built(&root);
    assert_eq!(tree.len(), 1);
    assert_eq!(tree.get("song").unwrap().src, "Music/song.mp3");
    assert!(tree.get("song").unwrap().child.is_empty());

    let root = root_of(
        "Music",
        vec![
            file_in("Music", "song.mp3"),
            file_in("Music", "song.ogg"),
            dir_in("Music", "song", vec![file_in("Music/song", "inner.mp3")]),
        ],
    );
    let tree = built(&root);
    assert_eq!(tree.len(), 1);
    assert_eq!(tree.get("song").unwrap().src, "Music/song");
    assert_eq!(tree.get("song").unwrap().child.keys(), vec!["inner"]);
}

#[test]
fn a_file_that_is_passed_over_replaces_nothing() {
    let root = root_of(
        "Music",
        vec![file_in("Music", "song.mp3"), file_in("Music", "song.txt")],
    );
    let tree = built(&root);
    assert_eq!(tree.get("song").unwrap().src, "Music/song.mp3");
}

#[test]
fn names_are_stems_for_directories_too() {
    let root = root_of(
        "Disc.Set",
        vec![dir_in("Disc.Set", "Vol.1", vec![file_in("Disc.Set/Vol.1", "t.r.a.c.k.wav")])],
    );
    let tree = built(&root);
    assert_eq!(tree.keys(), vec!["Vol"]);
    let vol = tree.get("Vol").unwrap();
    assert_eq!(vol.src, "Disc.Set/Vol.1");
    assert_eq!(vol.parent, "Disc");
    assert_eq!(vol.child.keys(), vec!["t.r.a.c.k"]);
    assert_eq!(vol.child.get("t.r.a.c.k").unwrap().parent, "Vol");
}

#[test]
fn a_root_without_a_name_gives_an_empty_parent() {
    let root = Item::directory("", "/", Listing::of(vec![file_in("", "a.mp3")]));
    let tree = built(&root);
    assert_eq!(tree.get("a").unwrap().parent, "");
    assert_eq!(tree.get("a").unwrap().src, "/a.mp3");
}

#[test]
fn the_tree_is_ordered_by_name_not_by_listing() {
    let root = root_of(
        "Music",
        vec![
            file_in("Music", "zulu.mp3"),
            dir_in("Music", "mike", vec![]),
            file_in("Music", "alpha.flac"),
            dir_in("Music", "Bravo", vec![]),
        ],
    );
    let tree = built(&root);
    assert_eq!(tree.keys(), vec!["Bravo", "alpha", "mike", "zulu"]);
}

#[test]
fn what_the_node_held_before_stays() {
    let mut tree = Node::new();
    let mut kept = Entry::default();
    kept.src = String::from("kept");
    tree.insert(String::from("kept"), kept);
    let mut replaced = Entry::default();
    replaced.src = String::from("old");
    replaced.child.insert(String::from("x"), Entry::default());
    tree.insert(String::from("a"), replaced);
    let root = root_of("Music", vec![file_in("Music", "a.mp3")]);
    assert!(populate(&root, &mut tree).is_ok());
    assert_eq!(tree.keys(), vec!["a", "kept"]);
    assert_eq!(tree.get("kept").unwrap().src, "kept");
    assert_eq!(tree.get("a").unwrap().src, "Music/a.mp3");
    assert!(tree.get("a").unwrap().child.is_empty());
}

#[test]
fn a_report_can_be_written_field_by_field() {
    let root = Item {
        name: String::from("Music"),
        path: String::from("Music"),
        kind: Kind::Directory(Listing {
            items: vec![Item {
                name: String::from("a.mp3"),
                path: String::from("Music/a.mp3"),
                kind: Kind::File,
            }],
            failure: None,
        }),
    };
    let tree = built(&root);
    assert_eq!(tree.keys(), vec!["a"]);
}

#[test]
fn a_failure_can_be_copied() {
    let e = IoError::new(FailureKind::NotFound, "somewhere");
    let c = e.copy();
    assert_eq!(c.kind, FailureKind::NotFound);
    assert_eq!(c.path, "somewhere");
    assert_ne!(c.kind, FailureKind::Other);
}
