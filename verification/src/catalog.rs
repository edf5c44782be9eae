//! Where a room's files go: the room's folder label, chosen once, the
//! category folder below it, and the extension a stored file keeps.

use vstd::prelude::*;
use crate::domain::{MediaCategory, RoomRecord};
use crate::media::{path_join, path_join_of};
use crate::rooms::{listing_name, lowercase_of, text_lowercase};
use crate::text::{
    ascii_lower_seq, ascii_lowercase_char, chars_of, contains_string, is_prefix, push_char, push_str,
    replace_char, replace_char_seq, starts_with, str_eq, string_views, to_ascii_lowercase,
};

verus! {

/// The folder of one category of media.
pub open spec fn category_folder_text(category: MediaCategory) -> Seq<char> {
    match category {
        MediaCategory::Images => "Images"@,
        MediaCategory::Videos => "Videos"@,
        MediaCategory::Audio => "Audio"@,
        MediaCategory::Other => "Other"@,
    }
}

pub fn category_folder_name(category: MediaCategory) -> (r: &'static str)
    ensures
        r@ == category_folder_text(category),
{
    proof {
        reveal_strlit("Images");
        reveal_strlit("Videos");
        reveal_strlit("Audio");
        reveal_strlit("Other");
    }
    match category {
        MediaCategory::Images => "Images",
        MediaCategory::Videos => "Videos",
        MediaCategory::Audio => "Audio",
        MediaCategory::Other => "Other",
    }
}

/// The folder a room's files of one category go to:
/// `<root>/<room folder label>/<category folder>`.
pub fn category_folder(root: &str, folder_label: &str, category: MediaCategory) -> (r: String)
    ensures
        r@ == path_join_of(path_join_of(root@, folder_label@), category_folder_text(category)),
{
    let room_folder = path_join(root, folder_label);
    path_join(room_folder.as_str(), category_folder_name(category))
}

/// A name usable as one folder: path separators become `_`.
pub open spec fn folder_safe_text(name: Seq<char>) -> Seq<char> {
    replace_char_seq(replace_char_seq(name, '/', '_'), '\\', '_')
}

/// The label of a room's folder, chosen when the room is first recorded:
/// its listing name made folder-safe; when another room's label has the same
/// lower-case form, the room ID in brackets is added.
pub open spec fn folder_label_text(listing: Seq<char>, room_id: Seq<char>, taken: Seq<Seq<char>>) -> Seq<char> {
    let base = folder_safe_text(listing);
    if taken.contains(lowercase_of(base)) {
        base + " ("@ + room_id + ")"@
    } else {
        base
    }
}

pub fn folder_label(listing: &str, room_id: &str, taken: &Vec<String>) -> (r: String)
    ensures
        r@ == folder_label_text(listing@, room_id@, string_views(taken@)),
{
    let slashless = replace_char(listing, '/', '_');
    let base = replace_char(slashless.as_str(), '\\', '_');
    let lowered = text_lowercase(base.as_str());
    if contains_string(taken, lowered.as_str()) {
        let mut label = base;
        push_str(&mut label, " (");
        push_str(&mut label, room_id);
        push_str(&mut label, ")");
        proof {
            reveal_strlit(" (");
            reveal_strlit(")");
            assert(label@ =~= folder_label_text(listing@, room_id@, string_views(taken@)));
        }
        label
    } else {
        base
    }
}

/// A room's record as refreshed from the client at `now`: its current name,
/// alias and membership; a space once seen as one stays one; the folder
/// label stays the one first chosen, and is chosen now for a new room.
pub open spec fn refreshed_record(
    existing: Option<RoomRecord>,
    room_id: Seq<char>,
    display_name: Option<Seq<char>>,
    canonical_alias: Option<Seq<char>>,
    is_space: bool,
    membership: Seq<char>,
    taken: Seq<Seq<char>>,
    r: RoomRecord,
    now: i64,
) -> bool {
    &&& r.room_id@ == room_id
    &&& r.current_display_name.deep_view() == display_name
    &&& r.current_canonical_alias.deep_view() == canonical_alias
    &&& r.membership@ == membership
    &&& r.updated_at == now
    &&& r.is_space == (is_space || match existing {
        Some(e) => e.is_space,
        None => false,
    })
    &&& r.active_folder_label@ == match existing {
        Some(e) if e.active_folder_label@.len() > 0 => e.active_folder_label@,
        _ => folder_label_text(listing_name(r), room_id, taken),
    }
}

/// Refreshes what is recorded of a room. `taken` holds the lower-case
/// folder labels of the other rooms.
pub fn refreshed_room_record(
    existing: Option<RoomRecord>,
    room_id: &str,
    display_name: Option<String>,
    canonical_alias: Option<String>,
    is_space: bool,
    membership: &str,
    taken: &Vec<String>,
    now: i64,
) -> (r: RoomRecord)
    ensures
        refreshed_record(
            existing,
            room_id@,
            display_name.deep_view(),
            canonical_alias.deep_view(),
            is_space,
            membership@,
            string_views(taken@),
            r,
            now,
        ),
{
    let was_space = match &existing {
        Some(e) => e.is_space,
        None => false,
    };
    let mut record = RoomRecord {
        room_id: room_id.to_owned(),
        current_display_name: display_name,
        current_canonical_alias: canonical_alias,
        active_folder_label: String::new(),
        is_space: is_space || was_space,
        membership: membership.to_owned(),
        updated_at: now,
    };
    let kept = match existing {
        Some(e) => if e.active_folder_label.as_str().unicode_len() > 0 {
            Some(e.active_folder_label)
        } else {
            None
        },
        None => None,
    };
    match kept {
        Some(label) => {
            record.active_folder_label = label;
        },
        None => {
            let listing = match &record.current_display_name {
                Some(n) => n.clone(),
                None => match &record.current_canonical_alias {
                    Some(a) => a.clone(),
                    None => record.room_id.clone(),
                },
            };
            record.active_folder_label = folder_label(listing.as_str(), room_id, taken);
        },
    }
    record
}

/// Whether `c` is an ASCII letter or digit.
pub open spec fn is_ascii_alnum(c: char) -> bool {
    ('a' <= c && c <= 'z') || ('A' <= c && c <= 'Z') || ('0' <= c && c <= '9')
}

/// The position of the last `.` of `s`.
pub open spec fn last_dot(s: Seq<char>) -> Option<int>
    decreases s.len(),
{
    if s.len() == 0 {
        None
    } else if s.last() == '.' {
        Some(s.len() - 1)
    } else {
        last_dot(s.drop_last())
    }
}

/// The extension a stored file keeps: what follows the last `.` of its
/// original name, when that is one to eight ASCII letters or digits, in
/// lower case.
pub open spec fn extension_text(name: Seq<char>) -> Option<Seq<char>> {
    match last_dot(name) {
        None => None,
        Some(i) => {
            let ext = name.subrange(i + 1, name.len() as int);
            if 1 <= ext.len() <= 8 && forall|k: int| 0 <= k < ext.len() ==> is_ascii_alnum(#[trigger] ext[k]) {
                Some(ascii_lower_seq(ext))
            } else {
                None
            }
        },
    }
}

proof fn lemma_last_dot_of_scan(s: Seq<char>, i: int)
    requires
        0 <= i < s.len(),
        s[i] == '.',
        forall|k: int| i < k < s.len() ==> s[k] != '.',
    ensures
        last_dot(s) == Some(i),
    decreases s.len(),
{
    if s.last() != '.' {
        lemma_last_dot_of_scan(s.drop_last(), i);
    }
}

proof fn lemma_no_dot(s: Seq<char>)
    requires
        forall|k: int| 0 <= k < s.len() ==> s[k] != '.',
    ensures
        last_dot(s) is None,
    decreases s.len(),
{
    if s.len() > 0 {
        lemma_no_dot(s.drop_last());
    }
}

fn is_ascii_alnum_exec(c: char) -> (r: bool)
    ensures
        r == is_ascii_alnum(c),
{
    ('a' <= c && c <= 'z') || ('A' <= c && c <= 'Z') || ('0' <= c && c <= '9')
}

/// The extension a stored file keeps, from its original file name.
pub fn preferred_extension(filename: Option<&str>) -> (r: Option<String>)
    ensures
        r.deep_view() == match filename {
            Some(f) => extension_text(f@),
            None => None,
        },
{
    let name = match filename {
        Some(f) => f,
        None => {
            return None;
        },
    };
    let v = chars_of(name);
    let mut i: usize = v.len();
    while i > 0 && v[i - 1] != '.'
        invariant
            v@ == name@,
            i <= v@.len(),
            forall|k: int| i <= k < v@.len() ==> v@[k] != '.',
        decreases i,
    {
        i = i - 1;
    }
    if i == 0 {
        proof {
            lemma_no_dot(name@);
        }
        return None;
    }
    let dot: usize = i - 1;
    proof {
        lemma_last_dot_of_scan(name@, dot as int);
    }
    let ghost ext = name@.subrange(dot + 1, name@.len() as int);
    let count: usize = v.len() - i;
    if count < 1 || count > 8 {
        return None;
    }
    let mut out = String::new();
    let mut k: usize = i;
    while k < v.len()
        invariant
            v@ == name@,
            filename == Some(name),
            i == dot + 1,
            last_dot(name@) == Some(dot as int),
            i <= k <= v@.len(),
            ext == name@.subrange(i as int, name@.len() as int),
            forall|j: int| 0 <= j < k - i ==> is_ascii_alnum(#[trigger] ext[j]),
            out@ == ascii_lower_seq(ext.subrange(0, k - i)),
        decreases v@.len() - k,
    {
        if !is_ascii_alnum_exec(v[k]) {
            proof {
                assert(ext[k - i] == v@[k as int]);
                assert(!is_ascii_alnum(ext[k - i]));
            }
            return None;
        }
        push_char(&mut out, ascii_lowercase_char(v[k]));
        proof {
            assert(ext[k - i] == v@[k as int]);
            assert(ext.subrange(0, k + 1 - i) =~= ext.subrange(0, k - i).push(v@[k as int]));
            assert(ascii_lower_seq(ext.subrange(0, k + 1 - i)) =~= ascii_lower_seq(ext.subrange(0, k - i)).push(
                crate::text::ascii_lower(v@[k as int]),
            ));
        }
        k = k + 1;
    }
    proof {
        assert(ext.subrange(0, ext.len() as int) =~= ext);
    }
    Some(out)
}

/// The category a MIME type names: its top-level type (ASCII letters
/// compared without case) is `image`, `video` or `audio`.
pub open spec fn mime_category_of(mime: Seq<char>) -> Option<MediaCategory> {
    let m = ascii_lower_seq(mime);
    if is_prefix("image/"@, m) {
        Some(MediaCategory::Images)
    } else if is_prefix("video/"@, m) {
        Some(MediaCategory::Videos)
    } else if is_prefix("audio/"@, m) {
        Some(MediaCategory::Audio)
    } else {
        None
    }
}

pub open spec fn image_extension(e: Seq<char>) -> bool {
    e == "jpg"@ || e == "jpeg"@ || e == "png"@ || e == "gif"@ || e == "webp"@ || e == "bmp"@ || e
        == "heic"@ || e == "heif"@ || e == "tif"@ || e == "tiff"@ || e == "avif"@ || e == "svg"@
}

pub open spec fn video_extension(e: Seq<char>) -> bool {
    e == "mp4"@ || e == "m4v"@ || e == "mov"@ || e == "mkv"@ || e == "webm"@ || e == "avi"@ || e
        == "wmv"@ || e == "flv"@ || e == "3gp"@ || e == "mpg"@ || e == "mpeg"@
}

pub open spec fn audio_extension(e: Seq<char>) -> bool {
    e == "mp3"@ || e == "m4a"@ || e == "aac"@ || e == "ogg"@ || e == "oga"@ || e == "opus"@ || e
        == "wav"@ || e == "flac"@ || e == "wma"@
}

/// The category a file extension (lower case) names.
pub open spec fn extension_category_of(e: Seq<char>) -> MediaCategory {
    if image_extension(e) {
        MediaCategory::Images
    } else if video_extension(e) {
        MediaCategory::Videos
    } else if audio_extension(e) {
        MediaCategory::Audio
    } else {
        MediaCategory::Other
    }
}

/// The category of a file sent as a file: the one its MIME type names, else
/// the one its name's extension names, else `Other`.
pub open spec fn file_category_of(name: Option<Seq<char>>, mime: Option<Seq<char>>) -> MediaCategory {
    match (match mime {
        Some(m) => mime_category_of(m),
        None => None,
    }) {
        Some(c) => c,
        None => match name {
            Some(n) => match extension_text(n) {
                Some(e) => extension_category_of(e),
                None => MediaCategory::Other,
            },
            None => MediaCategory::Other,
        },
    }
}

fn mime_category(mime: &str) -> (r: Option<MediaCategory>)
    ensures
        r == mime_category_of(mime@),
{
    let m = to_ascii_lowercase(mime);
    if starts_with(m.as_str(), "image/") {
        Some(MediaCategory::Images)
    } else if starts_with(m.as_str(), "video/") {
        Some(MediaCategory::Videos)
    } else if starts_with(m.as_str(), "audio/") {
        Some(MediaCategory::Audio)
    } else {
        None
    }
}

fn extension_category(e: &str) -> (r: MediaCategory)
    ensures
        r == extension_category_of(e@),
{
    if str_eq(e, "jpg") || str_eq(e, "jpeg") || str_eq(e, "png") || str_eq(e, "gif") || str_eq(e, "webp")
        || str_eq(e, "bmp") || str_eq(e, "heic") || str_eq(e, "heif") || str_eq(e, "tif") || str_eq(
        e,
        "tiff",
    ) || str_eq(e, "avif") || str_eq(e, "svg") {
        MediaCategory::Images
    } else if str_eq(e, "mp4") || str_eq(e, "m4v") || str_eq(e, "mov") || str_eq(e, "mkv") || str_eq(
        e,
        "webm",
    ) || str_eq(e, "avi") || str_eq(e, "wmv") || str_eq(e, "flv") || str_eq(e, "3gp") || str_eq(e, "mpg")
        || str_eq(e, "mpeg") {
        MediaCategory::Videos
    } else if str_eq(e, "mp3") || str_eq(e, "m4a") || str_eq(e, "aac") || str_eq(e, "ogg") || str_eq(
        e,
        "oga",
    ) || str_eq(e, "opus") || str_eq(e, "wav") || str_eq(e, "flac") || str_eq(e, "wma") {
        MediaCategory::Audio
    } else {
        MediaCategory::Other
    }
}

/// Classifies a file sent as a file, by its MIME type, else by its name.
pub fn file_category(name: Option<&str>, mime_type: Option<&str>) -> (r: MediaCategory)
    ensures
        r == file_category_of(name.deep_view(), mime_type.deep_view()),
{
    let by_mime = match mime_type {
        Some(m) => mime_category(m),
        None => None,
    };
    match by_mime {
        Some(c) => c,
        None => match preferred_extension(name) {
            Some(e) => extension_category(e.as_str()),
            None => MediaCategory::Other,
        },
    }
}

} // verus!
