//! File names: their stems and extensions, and the extensions that matter
//! to a music library.
//!
//! A name here is one component of a path, as a directory listing reports
//! it: `song.mp3`, never `Album/song.mp3`.

use vstd::prelude::*;

verus! {

/// The place of the last `.` among the first `end` characters of `name`,
/// or -1 where there is none.
pub open spec fn last_dot(name: Seq<char>, end: int) -> int
    decreases end,
{
    if end <= 0 {
        -1
    } else if name[end - 1] == '.' {
        end - 1
    } else {
        last_dot(name, end - 1)
    }
}

/// Where `name` parts into stem and extension: at its last `.`, unless the
/// name has none or has its only one in front (`.hidden`).
pub open spec fn split_point(name: Seq<char>) -> Option<int> {
    let dot = last_dot(name, name.len() as int);
    if dot <= 0 {
        None
    } else {
        Some(dot)
    }
}

/// The name without its extension: what stands before the last `.`, or the
/// whole name where it does not part.
pub open spec fn stem_of(name: Seq<char>) -> Seq<char> {
    match split_point(name) {
        Some(dot) => name.subrange(0, dot),
        None => name,
    }
}

/// What stands behind the last `.`, where the name parts.
pub open spec fn extension_of(name: Seq<char>) -> Option<Seq<char>> {
    match split_point(name) {
        Some(dot) => Some(name.subrange(dot + 1, name.len() as int)),
        None => None,
    }
}

/// The extensions of the audio files that belong in the tree.
pub open spec fn audio_extensions() -> Seq<Seq<char>> {
    seq!["mp3"@, "ogg"@, "opus"@, "wav"@, "aac"@, "flac"@]
}

/// Whether `extension` is that of an audio file. Case matters.
pub open spec fn is_audio_extension(extension: Seq<char>) -> bool {
    audio_extensions().contains(extension)
}

/// Whether a file of this name is an audio file: it has an extension, and
/// that extension is one of the audio extensions.
pub open spec fn is_audio_name(name: Seq<char>) -> bool {
    match extension_of(name) {
        Some(extension) => is_audio_extension(extension),
        None => false,
    }
}

/// The suffixes of cover art, the most wanted first.
pub open spec fn art_suffixes() -> Seq<Seq<char>> {
    seq![".webp"@, ".apng"@, ".gif"@, ".avif"@, ".svg"@, ".png"@, ".jpeg"@, ".jpg"@]
}

/// `last_dot` is the place of a `.`, and no `.` stands behind it.
pub proof fn last_dot_is_last(name: Seq<char>, end: int)
    requires
        end <= name.len(),
    ensures
        -1 <= last_dot(name, end),
        end > 0 ==> last_dot(name, end) < end,
        last_dot(name, end) >= 0 ==> name[last_dot(name, end)] == '.',
        forall|i: int| last_dot(name, end) < i < end && 0 <= i ==> name[i] != '.',
    decreases end,
{
    if end > 0 && name[end - 1] != '.' {
        last_dot_is_last(name, end - 1);
    }
}

/// A name that parts is its stem, a `.` and its extension, and its
/// extension holds no `.`.
pub proof fn name_is_stem_dot_extension(name: Seq<char>)
    requires
        extension_of(name) is Some,
    ensures
        name == stem_of(name) + seq!['.'] + extension_of(name).unwrap(),
        stem_of(name).len() > 0,
        !extension_of(name).unwrap().contains('.'),
{
    last_dot_is_last(name, name.len() as int);
    let dot = last_dot(name, name.len() as int);
    let extension = extension_of(name).unwrap();
    assert(name =~= stem_of(name) + seq!['.'] + extension);
    assert forall|i: int| 0 <= i < extension.len() implies extension[i] != '.' by {
        assert(extension[i] == name[dot + 1 + i]);
    }
}

/// A name that does not part is its own stem.
pub proof fn name_without_extension_is_stem(name: Seq<char>)
    requires
        extension_of(name) is None,
    ensures
        stem_of(name) == name,
        forall|i: int| 0 < i < name.len() ==> name[i] != '.',
{
    last_dot_is_last(name, name.len() as int);
}

/// The place at which `name` parts, if it does.
pub fn split(name: &str) -> (r: Option<usize>)
    ensures
        match r {
            Some(dot) => split_point(name@) == Some(dot as int) && 0 < dot < name@.len(),
            None => split_point(name@) is None,
        },
{
    let len: usize = name.unicode_len();
    let mut i: usize = len;
    while i > 0
        invariant
            i <= len,
            len == name@.len(),
            last_dot(name@, len as int) == last_dot(name@, i as int),
        decreases i,
    {
        if name.get_char(i - 1) == '.' {
            if i - 1 == 0 {
                return None;
            }
            return Some(i - 1);
        }
        i -= 1;
    }
    None
}

/// The stem of `name`.
pub fn stem(name: &str) -> (r: String)
    ensures
        r@ == stem_of(name@),
{
    match split(name) {
        Some(dot) => name.substring_char(0, dot).to_owned(),
        None => name.to_owned(),
    }
}

/// The extension of `name`, if it has one.
pub fn extension(name: &str) -> (r: Option<String>)
    ensures
        match r {
            Some(e) => extension_of(name@) == Some(e@),
            None => extension_of(name@) is None,
        },
{
    match split(name) {
        Some(dot) => {
            let len: usize = name.unicode_len();
            Some(name.substring_char(dot + 1, len).to_owned())
        },
        None => None,
    }
}

/// Whether `extension` is one of the audio extensions.
pub fn is_audio(extension: &String) -> (r: bool)
    ensures
        r == is_audio_extension(extension@),
{
    let r = *extension == String::from_str("mp3") || *extension == String::from_str("ogg")
        || *extension == String::from_str("opus") || *extension == String::from_str("wav")
        || *extension == String::from_str("aac") || *extension == String::from_str("flac");
    proof {
        let all = audio_extensions();
        assert(all[0] == "mp3"@ && all[1] == "ogg"@ && all[2] == "opus"@ && all[3] == "wav"@
            && all[4] == "aac"@ && all[5] == "flac"@);
    }
    r
}

/// Whether a file of this name is an audio file.
pub fn is_audio_file(name: &str) -> (r: bool)
    ensures
        r == is_audio_name(name@),
{
    match extension(name) {
        Some(e) => is_audio(&e),
        None => false,
    }
}

/// The suffixes of cover art, the most wanted first.
pub fn art_suffix_list() -> (r: Vec<String>)
    ensures
        r.deep_view() == art_suffixes(),
{
    let mut r: Vec<String> = Vec::new();
    r.push(String::from_str(".webp"));
    r.push(String::from_str(".apng"));
    r.push(String::from_str(".gif"));
    r.push(String::from_str(".avif"));
    r.push(String::from_str(".svg"));
    r.push(String::from_str(".png"));
    r.push(String::from_str(".jpeg"));
    r.push(String::from_str(".jpg"));
    assert(r.deep_view() =~= art_suffixes());
    r
}

} // verus!
