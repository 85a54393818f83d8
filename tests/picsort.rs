use picsort::{
    copy_action, exif_destination, is_media_file, join_path, pictures_dir, read_jpg_exif,
    smartphone_file, CopyAction, CopyOutcome, CopyTally, EntryKind, MediaConfig, MediaError, Visit,
};

/// A JPEG holding only a metadata segment whose original capture time is `when`
/// (nineteen characters, `YYYY:MM:DD HH:MM:SS`).
fn jpeg_with_capture_time(when: &str) -> Vec<u8> {
    assert_eq!(when.len(), 19);
    let mut tiff: Vec<u8> = vec![b'M', b'M', 0x00, 0x2a, 0, 0, 0, 8];
    // first directory: one entry pointing at the Exif directory at offset 26
    tiff.extend_from_slice(&[0, 1, 0x87, 0x69, 0, 4, 0, 0, 0, 1, 0, 0, 0, 26, 0, 0, 0, 0]);
    // Exif directory: DateTimeOriginal, 20 ASCII bytes at offset 44
    tiff.extend_from_slice(&[0, 1, 0x90, 0x03, 0, 2, 0, 0, 0, 20, 0, 0, 0, 44, 0, 0, 0, 0]);
    tiff.extend_from_slice(when.as_bytes());
    tiff.push(0);
    let mut app1: Vec<u8> = b"Exif\0\0".to_vec();
    app1.extend_from_slice(&tiff);
    let len = (app1.len() + 2) as u16;
    let mut jpeg: Vec<u8> = vec![0xff, 0xd8, 0xff, 0xe1, (len >> 8) as u8, len as u8];
    jpeg.extend_from_slice(&app1);
    jpeg.extend_from_slice(&[0xff, 0xd9]);
    jpeg
}

#[test]
fn test_is_media_file() {
    let list_of_media_files = vec!["jpg", "jpeg", "mp4", "png", "JPG", "JPEG", "MP4", "PNG"];
    for media_file in list_of_media_files {
        let filename = format!("test.{}", media_file);
        assert_eq!(
            true,
            is_media_file(&filename),
            "File should be a media file {}",
            filename
        );
    }
}

#[test]
fn media_file_mixed_case_and_others() {
    assert!(is_media_file("dir/holiday.JpEg"));
    assert!(is_media_file("/a/b.c/clip.Mp4"));
    assert!(!is_media_file("notes.txt"));
    assert!(!is_media_file("image.gif"));
    assert!(!is_media_file("jpg"));
    assert!(!is_media_file("folder.jpg/readme"));
    assert!(is_media_file("x.jpg/"));
    assert!(is_media_file("dir/clip.MP4/."));
    assert!(is_media_file("dir/clip.png//./"));
    assert!(!is_media_file("dir/.."));
    assert!(!is_media_file("/"));
    assert!(!is_media_file(".jpg"));
    assert!(!is_media_file("photo.jpg.bak"));
    assert!(!is_media_file(""));
}

#[test]
fn read_no_smartphone_image() {
    let filename = "no_match.jpg";
    assert_eq!(None, smartphone_file(filename));
}

#[test]
fn read_smartphone_video() {
    let filename = "VID_20221220_170102.jpg";
    assert_eq!(
        Some(String::from(format!("2022/12/20/{filename}"))),
        smartphone_file(filename)
    );
}

#[test]
fn read_smartphone_image() {
    let filename = "IMG_20230115_102911.jpg";
    assert_eq!(
        Some(String::from(format!("2023/01/15/{filename}"))),
        smartphone_file(filename)
    );
}

#[test]
fn smartphone_name_inside_a_path() {
    assert_eq!(
        Some(String::from("2021/01/30/VID_20210130_000003.mp4")),
        smartphone_file("/home/me/phone/VID_20210130_000003.mp4")
    );
    assert_eq!(
        Some(String::from("1999/12/31/IMG_19991231_235959.jpg")),
        smartphone_file("x_IMG_19991231_235959.jpg_IMG_20000101_000000.jpg")
    );
}

#[test]
fn smartphone_name_rejections() {
    assert_eq!(None, smartphone_file("img_20230115_102911.jpg"));
    assert_eq!(None, smartphone_file("IMG_20230115_102911.png"));
    assert_eq!(None, smartphone_file("IMG_2023011_102911.jpg"));
    assert_eq!(None, smartphone_file("IMG_20230115_102911xjpg"));
    assert_eq!(None, smartphone_file("IMG_20230115_102911_jpg.png"));
    assert_eq!(None, smartphone_file(""));
}

#[test]
fn smartphone_name_month_not_checked() {
    assert_eq!(
        Some(String::from("2023/99/15/IMG_20239915_102911.mp4")),
        smartphone_file("IMG_20239915_102911.mp4")
    );
}

#[test]
fn smartphone_name_needs_a_dot() {
    assert_eq!(None, smartphone_file("IMG_20239915_102911xmp4"));
}

#[test]
fn metadata_text_gives_date() {
    assert_eq!(
        Some(String::from("2022/12/17/test_image.JPG")),
        exif_destination("/photos/test_image.JPG", "2022-12-17 10:00:00")
    );
    assert_eq!(
        Some(String::from("2020/02/29/a.png")),
        exif_destination("a.png", "taken 2020-02-29 \t 1:2:3:4:")
    );
}

#[test]
fn metadata_text_without_date() {
    assert_eq!(None, exif_destination("a.jpg", "unknown"));
    assert_eq!(None, exif_destination("a.jpg", "2022-12-17T10:00:00"));
    assert_eq!(None, exif_destination("a.jpg", "2022-12-17 10:00"));
    assert_eq!(None, exif_destination("a.jpg", ""));
}

#[test]
fn read_jpg_exif_from_bytes() {
    let bytes = jpeg_with_capture_time("2022:12:17 10:00:00");
    assert_eq!(
        Ok(Some(String::from("2022/12/17/test_image.JPG"))),
        read_jpg_exif("some/dir/test_image.JPG", &bytes)
    );
}

#[test]
fn read_jpg_exif_other_extension_is_not_read() {
    let bytes = jpeg_with_capture_time("2022:12:17 10:00:00");
    assert_eq!(Ok(None), read_jpg_exif("clip.mp4", &bytes));
    assert_eq!(Ok(None), read_jpg_exif("photo.jpeg", &[1, 2, 3]));
}

#[test]
fn read_jpg_exif_unreadable() {
    assert_eq!(
        Err(MediaError::UnreadableMetadata),
        read_jpg_exif("broken.jpg", &[1, 2, 3])
    );
    assert_eq!(
        Err(MediaError::UnreadableMetadata),
        read_jpg_exif("empty.PNG", &[])
    );
}

#[test]
fn discovery_of_camera_files() {
    let mut config = MediaConfig::new(String::from("/src"), String::from("/dst"));
    assert_eq!(
        Visit::Descend,
        config.visit_entry("/src/test_images", EntryKind::Directory, true)
    );
    let names = [
        "IMG_20210130_000001.jpg",
        "IMG_20210130_000002.jpg",
        "VID_20210130_000003.mp4",
    ];
    for name in names.iter() {
        let path = format!("/src/test_images/{name}");
        assert_eq!(Visit::Added, config.visit_entry(&path, EntryKind::File, true));
    }
    let jobs = config.copy_media_files();
    assert_eq!(names.len(), jobs.len());
    for name in names.iter() {
        let source = format!("/src/test_images/{name}");
        let dest = format!("/dst/2021/01/30/{name}");
        assert!(jobs.contains(&(source, dest)));
    }
}

#[test]
fn discovery_decisions() {
    let mut config = MediaConfig::new(String::from("/src"), String::from("/dst/"));
    assert_eq!(Visit::Skip, config.visit_entry("/src/sub", EntryKind::Directory, false));
    assert_eq!(Visit::Skip, config.visit_entry("/src/notes.txt", EntryKind::File, true));
    assert_eq!(Visit::Skip, config.visit_entry("/src/IMG_20210130_000001.jpg", EntryKind::Other, true));
    assert_eq!(Visit::ReadMetadata, config.visit_entry("/src/beach.JPG", EntryKind::File, true));
    assert_eq!(Visit::Skip, config.visit_entry("/src/beach.jpeg", EntryKind::File, true));
    assert_eq!(0, config.copy_media_files().len());
    let bytes = jpeg_with_capture_time("2019:07:04 18:30:00");
    assert_eq!(Ok(true), config.add_from_metadata("/src/beach.JPG", &bytes));
    assert_eq!(Err(MediaError::UnreadableMetadata), config.add_from_metadata("/src/bad.jpg", &[0]));
    let jobs = config.copy_media_files();
    assert_eq!(
        vec![(String::from("/src/beach.JPG"), String::from("/dst/2019/07/04/beach.JPG"))],
        jobs
    );
}

#[test]
fn same_source_recorded_once() {
    let mut config = MediaConfig::new(String::from("s"), String::from("t"));
    let path = "s/IMG_20210130_000001.jpg";
    assert_eq!(Visit::Added, config.visit_entry(path, EntryKind::File, true));
    assert_eq!(Visit::Added, config.visit_entry(path, EntryKind::File, true));
    assert_eq!(
        vec![(String::from(path), String::from("t/2021/01/30/IMG_20210130_000001.jpg"))],
        config.copy_media_files()
    );
}

#[test]
fn existing_destination_is_skipped() {
    assert_eq!(CopyAction::Skip, copy_action(true));
    assert_eq!(CopyAction::Copy, copy_action(false));
}

#[test]
fn tally_counts_only_copies() {
    let mut tally = CopyTally::new();
    tally.record(CopyOutcome::Copied);
    tally.record(CopyOutcome::SkippedExisting);
    tally.record(CopyOutcome::Failed);
    tally.record(CopyOutcome::Copied);
    assert_eq!(2, tally.copied);
    assert_eq!(4, tally.total);
}

#[test]
fn second_pass_copies_nothing() {
    let dests = ["t/a", "t/b", "t/a"];
    let mut existing: Vec<&str> = vec!["t/b"];
    let mut first = CopyTally::new();
    for d in dests.iter() {
        match copy_action(existing.contains(d)) {
            CopyAction::Copy => {
                existing.push(d);
                first.record(CopyOutcome::Copied);
            }
            CopyAction::Skip => first.record(CopyOutcome::SkippedExisting),
        }
    }
    assert_eq!(1, first.copied);
    let mut second = CopyTally::new();
    for d in dests.iter() {
        assert_eq!(CopyAction::Skip, copy_action(existing.contains(d)));
        second.record(CopyOutcome::SkippedExisting);
    }
    assert_eq!(0, second.copied);
    assert_eq!(3, second.total);
}

#[test]
fn joining_paths() {
    assert_eq!("home/2021/x.jpg", join_path("home", "2021/x.jpg"));
    assert_eq!("home/2021/x.jpg", join_path("home/", "2021/x.jpg"));
    assert_eq!("2021/x.jpg", join_path("", "2021/x.jpg"));
    assert_eq!("/home/me/Pictures", pictures_dir("/home/me"));
}
