use media_archiver::catalog::{
    category_folder, category_folder_name, file_category, folder_label, preferred_extension, refreshed_room_record,
};
use media_archiver::clock::{instant_text, unix_time_parts};
use media_archiver::domain::{MediaCategory, RoomRecord};
use media_archiver::pipeline::failure_until;
use media_archiver::queue::FailureDecision;
use media_archiver::spaces::hierarchy_query;

const NOW: i64 = 1_700_000_000_000;

#[test]
fn category_folders_sit_below_the_room_folder() {
    assert_eq!(category_folder_name(MediaCategory::Images), "Images");
    assert_eq!(category_folder_name(MediaCategory::Videos), "Videos");
    assert_eq!(category_folder_name(MediaCategory::Audio), "Audio");
    assert_eq!(category_folder_name(MediaCategory::Other), "Other");
    assert_eq!(category_folder("/archive", "Room", MediaCategory::Images), "/archive/Room/Images");
}

#[test]
fn folder_labels_are_folder_safe_and_distinct() {
    assert_eq!(folder_label("My/Room\\Name", "!r:x", &Vec::new()), "My_Room_Name");
    assert_eq!(folder_label("Photos", "!r:x", &vec!["photos".to_owned()]), "Photos (!r:x)");
    assert_eq!(folder_label("Photos", "!r:x", &vec!["work".to_owned()]), "Photos");
}

#[test]
fn refreshed_records_keep_their_label_and_space_mark() {
    let fresh = refreshed_room_record(
        None,
        "!r:x",
        Some("Holiday".to_owned()),
        Some("#holiday:x".to_owned()),
        false,
        "joined",
        &Vec::new(),
        NOW,
    );
    assert_eq!(fresh.active_folder_label, "Holiday");
    assert!(!fresh.is_space);
    assert_eq!(fresh.updated_at, NOW);
    let existing = RoomRecord {
        room_id: "!r:x".to_owned(),
        current_display_name: Some("Old".to_owned()),
        current_canonical_alias: None,
        active_folder_label: "Old".to_owned(),
        is_space: true,
        membership: "joined".to_owned(),
        updated_at: 1,
    };
    let again = refreshed_room_record(
        Some(existing),
        "!r:x",
        Some("New".to_owned()),
        None,
        false,
        "joined",
        &Vec::new(),
        NOW,
    );
    assert_eq!(again.active_folder_label, "Old");
    assert_eq!(again.current_display_name.as_deref(), Some("New"));
    assert!(again.is_space);
    let unnamed = refreshed_room_record(None, "!id:x", None, None, false, "joined", &Vec::new(), NOW);
    assert_eq!(unnamed.active_folder_label, "!id:x");
}

#[test]
fn extensions_come_from_the_original_name() {
    assert_eq!(preferred_extension(Some("Photo.JPG")).as_deref(), Some("jpg"));
    assert_eq!(preferred_extension(Some("archive.tar.gz")).as_deref(), Some("gz"));
    assert_eq!(preferred_extension(Some("noext")), None);
    assert_eq!(preferred_extension(Some("trailing.")), None);
    assert_eq!(preferred_extension(Some("odd.ex-t")), None);
    assert_eq!(preferred_extension(Some("long.abcdefghi")), None);
    assert_eq!(preferred_extension(None), None);
}

#[test]
fn unix_time_parts_round_down() {
    assert_eq!(unix_time_parts(NOW + 123), (1_700_000_000, 123_000_000));
    assert_eq!(unix_time_parts(-1), (-1, 999_000_000));
    assert_eq!(unix_time_parts(-1000), (-1, 0));
    assert_eq!(unix_time_parts(0), (0, 0));
}

#[test]
fn instants_as_text() {
    assert_eq!(instant_text(NOW, true), "2023-11-14T22:13:20Z");
    assert_eq!(instant_text(NOW, false), "2023-11-14 22:13:20 UTC");
    assert_eq!(instant_text(i64::MAX, true), "");
    assert_eq!(failure_until(&FailureDecision::Undecryptable { next_eligible_at: NOW }), "2023-11-14T22:13:20Z");
    assert_eq!(
        failure_until(&FailureDecision::CoolDown { retry_count: 1, next_eligible_at: NOW, permanently_failed: false }),
        "2023-11-14 22:13:20 UTC"
    );
}

#[test]
fn hierarchy_query_pages_from_a_token() {
    let first = hierarchy_query(None);
    assert_eq!(
        first,
        vec![
            ("max_depth".to_owned(), "1".to_owned()),
            ("limit".to_owned(), "200".to_owned()),
            ("suggested_only".to_owned(), "false".to_owned()),
        ]
    );
    let next = hierarchy_query(Some("t1"));
    assert_eq!(next.len(), 4);
    assert_eq!(next[3], ("from".to_owned(), "t1".to_owned()));
}

#[test]
fn files_are_classified_by_type_then_name() {
    assert_eq!(file_category(Some("photo.bin"), Some("IMAGE/jpeg")), MediaCategory::Images);
    assert_eq!(file_category(Some("song.bin"), Some("audio/ogg")), MediaCategory::Audio);
    assert_eq!(file_category(Some("clip.MKV"), Some("application/octet-stream")), MediaCategory::Videos);
    assert_eq!(file_category(Some("song.mp3"), None), MediaCategory::Audio);
    assert_eq!(file_category(Some("report.pdf"), Some("application/pdf")), MediaCategory::Other);
    assert_eq!(file_category(None, None), MediaCategory::Other);
}
