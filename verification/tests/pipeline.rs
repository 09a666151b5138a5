use file_organizer::catalog::{Catalog, CatalogError};
use file_organizer::organize::{
    collision_name, record_manual_file, record_organized_file, resolve_collision,
    timestamped_name_now, AutoPlan,
};
use file_organizer::timestamp::{format_timestamp, Timestamp};
use file_organizer::utils::{
    categorize_files, get_file_extension, get_file_name, get_file_stem, get_mime_type,
    group_files_by_extension, join_path,
};
use file_organizer::watch::{filter_event, WatcherState};

fn ts_2024() -> Timestamp {
    Timestamp { year: 2024, month: 1, day: 1, hour: 12, minute: 0, second: 0 }
}

fn seeded() -> Catalog {
    let mut c = Catalog::new();
    c.seed_defaults().unwrap();
    c
}

#[test]
fn first_matching_rule_wins() {
    let mut c = Catalog::new();
    c.add_rule("A".to_string(), "pdf,txt".to_string(), "First".to_string(), true, true).unwrap();
    c.add_rule("B".to_string(), "txt,log".to_string(), "Second".to_string(), true, true).unwrap();
    assert_eq!(c.match_destination("txt").as_deref(), Some("First"));
    assert_eq!(c.match_destination("log").as_deref(), Some("Second"));
    assert_eq!(c.match_destination("zip"), None);
    assert_eq!(c.match_destination(""), None);
}

#[test]
fn matching_is_case_insensitive() {
    let mut c = Catalog::new();
    c.add_rule("A".to_string(), "JPG,Jpeg".to_string(), "Images".to_string(), true, true).unwrap();
    assert_eq!(c.match_destination("jpg").as_deref(), Some("Images"));
    assert_eq!(c.match_destination("JPEG").as_deref(), Some("Images"));
}

#[test]
fn inactive_and_non_extension_rules_are_skipped() {
    let mut c = Catalog::new();
    c.add_rule("A".to_string(), "txt".to_string(), "Off".to_string(), true, false).unwrap();
    c.add_rule("B".to_string(), "txt".to_string(), "NotExt".to_string(), false, true).unwrap();
    c.add_rule("C".to_string(), "txt".to_string(), "On".to_string(), true, true).unwrap();
    assert_eq!(c.match_destination("txt").as_deref(), Some("On"));
}

#[test]
fn jpg_scenario_matches_images_and_collision_name() {
    let c = seeded();
    assert_eq!(c.match_destination("jpg").as_deref(), Some("Images"));
    let name = resolve_collision("a.jpg", "a", "jpg", true, &ts_2024());
    assert_eq!(name, "a_20240101120000.jpg");
    let home_images = join_path("/home/u/Images", &name);
    assert_eq!(home_images, "/home/u/Images/a_20240101120000.jpg");
}

#[test]
fn free_destination_keeps_the_name() {
    let name = resolve_collision("a.jpg", "a", "jpg", false, &ts_2024());
    assert_eq!(name, "a.jpg");
}

#[test]
fn collision_name_shape() {
    let n = collision_name("report", &ts_2024(), "pdf");
    assert_eq!(n, "report_20240101120000.pdf");
    let stamp = &n["report_".len().."report_".len() + 14];
    assert_eq!(stamp.len(), 14);
    assert!(stamp.chars().all(|c| c.is_ascii_digit()));
    assert!(n.starts_with("report_"));
    assert!(n.ends_with(".pdf"));
}

#[test]
fn timestamp_formatting_is_zero_padded() {
    let ts = Timestamp { year: 987, month: 2, day: 3, hour: 4, minute: 5, second: 6 };
    assert_eq!(format_timestamp(&ts), "09870203040506");
}

#[test]
fn timestamped_name_now_has_the_collision_shape() {
    let n = timestamped_name_now("doc", "txt").unwrap();
    assert_eq!(n.len(), "doc".len() + 14 + 2 + "txt".len());
    assert!(n.starts_with("doc_"));
    assert!(n.ends_with(".txt"));
    assert!(n["doc_".len().."doc_".len() + 14].chars().all(|c| c.is_ascii_digit()));
}

#[test]
fn linking_twice_leaves_one_row() {
    let mut c = seeded();
    let fid = c
        .add_file(
            "/tmp/a.pdf".to_string(),
            "a.pdf".to_string(),
            "pdf".to_string(),
            10,
            "2024-01-01 00:00:00".to_string(),
            "2024-01-01 00:00:00".to_string(),
        )
        .unwrap();
    let tid = c.tags[0].id;
    c.add_tag_to_file(fid, tid).unwrap();
    c.add_tag_to_file(fid, tid).unwrap();
    let rows = c.links.iter().filter(|l| l.file_id == fid && l.tag_id == tid).count();
    assert_eq!(rows, 1);
    assert_eq!(c.links.len(), 1);
}

#[test]
fn seeding_is_insert_if_absent() {
    let mut c = Catalog::new();
    c.seed_defaults().unwrap();
    assert_eq!(c.tags.len(), 5);
    assert_eq!(c.rules.len(), 5);
    let names: Vec<&str> = c.tags.iter().map(|t| t.name.as_str()).collect();
    assert_eq!(names, ["Documents", "Images", "Videos", "Music", "Archives"]);
    let colors: Vec<&str> = c.tags.iter().map(|t| t.color.as_str()).collect();
    assert_eq!(colors, ["#4287f5", "#42f54e", "#f54242", "#f5a742", "#8342f5"]);
    assert_eq!(c.rules[0].pattern, "pdf,doc,docx,txt,rtf,odt");
    assert_eq!(c.rules[1].pattern, "jpg,jpeg,png,gif,bmp,webp,svg");
    assert_eq!(c.rules[2].pattern, "mp4,avi,mov,wmv,mkv,webm");
    assert_eq!(c.rules[3].pattern, "mp3,wav,flac,ogg,aac");
    assert_eq!(c.rules[4].pattern, "zip,rar,7z,tar,gz");
    assert!(c.rules.iter().all(|r| r.is_active && r.is_extension));
    c.seed_defaults().unwrap();
    assert_eq!(c.tags.len(), 5);
    assert_eq!(c.rules.len(), 5);
}

#[test]
fn hidden_files_and_directories_are_filtered() {
    assert!(filter_event("/w/dir", true, 0).is_none());
    assert!(filter_event("/w/.hidden", false, 3).is_none());
    let e = filter_event("/w/Photo.JPG", false, 42).unwrap();
    assert_eq!(e.path, "/w/Photo.JPG");
    assert_eq!(e.file_name, "Photo.JPG");
    assert_eq!(e.extension, "jpg");
    assert_eq!(e.size, 42);
    assert_eq!(e.event_type, "created");
}

#[test]
fn no_extension_is_a_no_op() {
    let c = seeded();
    let plan = file_organizer::organize::plan_organize_by_rules(&c, "/tmp/README", true, true);
    assert!(matches!(plan, AutoPlan::SkipNoExtension));
    let plan = file_organizer::organize::plan_organize_by_rules(&c, "/tmp/gone.pdf", false, true);
    assert!(matches!(plan, AutoPlan::SkipMissing));
    let plan = file_organizer::organize::plan_organize_by_rules(&c, "/tmp/d.pdf", true, false);
    assert!(matches!(plan, AutoPlan::SkipNotFile));
    let plan = file_organizer::organize::plan_organize_by_rules(&c, "/tmp/a.xyz", true, true);
    assert!(matches!(plan, AutoPlan::SkipNoRule));
    let plan = file_organizer::organize::plan_organize_by_rules(&c, "/tmp/a.JPG", true, true);
    match plan {
        AutoPlan::Move { extension, destination } => {
            assert_eq!(extension, "jpg");
            assert_eq!(destination, "Images");
        }
        _ => panic!("expected a move"),
    }
}

#[test]
fn manual_destination_records_without_tagging() {
    let mut c = seeded();
    let fid = record_manual_file(
        &mut c,
        "/dest/a.pdf".to_string(),
        "a.pdf".to_string(),
        "pdf".to_string(),
        5,
        "2024-01-01 00:00:00".to_string(),
        "2024-01-01 00:00:00".to_string(),
    )
    .unwrap();
    assert_eq!(c.files.len(), 1);
    assert_eq!(c.files[0].id, fid);
    assert!(c.links.is_empty());
}

#[test]
fn automatic_recording_tags_by_category() {
    let mut c = seeded();
    let (fid, tag) = record_organized_file(
        &mut c,
        "/home/u/Music/s.mp3".to_string(),
        "s.mp3".to_string(),
        "mp3".to_string(),
        9,
        "2024-01-01 00:00:00".to_string(),
        "2024-01-01 00:00:00".to_string(),
    )
    .unwrap();
    let music_id = c.tags.iter().find(|t| t.name == "Music").unwrap().id;
    assert_eq!(tag, Some(music_id));
    assert!(c.links.iter().any(|l| l.file_id == fid && l.tag_id == music_id));
    let (_, tag2) = record_organized_file(
        &mut c,
        "/home/u/X/f.xyz".to_string(),
        "f.xyz".to_string(),
        "xyz".to_string(),
        9,
        "2024-01-01 00:00:00".to_string(),
        "2024-01-01 00:00:00".to_string(),
    )
    .unwrap();
    assert_eq!(tag2, None);
}

#[test]
fn upsert_replaces_by_path_and_cascades_links() {
    let mut c = seeded();
    let fid = c
        .add_file(
            "/p/a.pdf".to_string(),
            "a.pdf".to_string(),
            "pdf".to_string(),
            1,
            "t".to_string(),
            "t".to_string(),
        )
        .unwrap();
    c.add_tag_to_file(fid, c.tags[0].id).unwrap();
    let fid2 = c
        .add_file(
            "/p/a.pdf".to_string(),
            "a.pdf".to_string(),
            "pdf".to_string(),
            2,
            "t".to_string(),
            "t".to_string(),
        )
        .unwrap();
    assert_ne!(fid, fid2);
    assert_eq!(c.files.len(), 1);
    assert_eq!(c.files[0].size, 2);
    assert!(c.links.is_empty());
}

#[test]
fn tag_errors_are_reported() {
    let mut c = Catalog::new();
    c.add_tag("Work".to_string(), "#fff".to_string()).unwrap();
    let e = c.add_tag("Work".to_string(), "#000".to_string()).unwrap_err();
    assert!(matches!(e, CatalogError::DuplicateTagName));
    let e = c.add_tag_to_file(99, 1).unwrap_err();
    assert!(matches!(e, CatalogError::MissingFile));
    let fid = c
        .add_file("/x".to_string(), "x".to_string(), "".to_string(), 0, "t".to_string(), "t".to_string())
        .unwrap();
    let e = c.add_tag_to_file(fid, 99).unwrap_err();
    assert!(matches!(e, CatalogError::MissingTag));
}

#[test]
fn removing_a_tag_cascades_its_links() {
    let mut c = Catalog::new();
    let t1 = c.add_tag("A".to_string(), "#1".to_string()).unwrap();
    let t2 = c.add_tag("B".to_string(), "#2".to_string()).unwrap();
    let fid = c
        .add_file("/x".to_string(), "x".to_string(), "".to_string(), 0, "t".to_string(), "t".to_string())
        .unwrap();
    c.add_tag_to_file(fid, t1).unwrap();
    c.add_tag_to_file(fid, t2).unwrap();
    c.remove_tag(t1);
    assert_eq!(c.tags.len(), 1);
    assert_eq!(c.links.len(), 1);
    assert_eq!(c.links[0].tag_id, t2);
    c.remove_tag(999);
    assert_eq!(c.tags.len(), 1);
}

#[test]
fn watched_folder_registry_and_records() {
    let mut c = Catalog::new();
    c.upsert_watched_folder("/w".to_string(), true);
    c.upsert_watched_folder("/w".to_string(), false);
    assert_eq!(c.watched.len(), 1);
    assert!(!c.watched[0].is_active);
    c.upsert_watched_folder("/v".to_string(), true);
    c.set_all_watched_folders_inactive();
    assert!(c.watched.iter().all(|w| !w.is_active));

    let mut ws = WatcherState::new();
    assert!(!ws.register_path("/w".to_string()));
    assert!(ws.register_path("/w".to_string()));
    assert!(ws.is_watching("/w"));
    ws.clear();
    assert!(!ws.is_watching("/w"));
}

#[test]
fn search_filters_by_query_tag_and_extension() {
    let mut c = seeded();
    let f1 = c
        .add_file(
            "/d/Report.pdf".to_string(),
            "Report.pdf".to_string(),
            "pdf".to_string(),
            1,
            "t".to_string(),
            "t".to_string(),
        )
        .unwrap();
    let _f2 = c
        .add_file(
            "/d/song.mp3".to_string(),
            "song.mp3".to_string(),
            "mp3".to_string(),
            2,
            "t".to_string(),
            "t".to_string(),
        )
        .unwrap();
    let docs = c.tags.iter().find(|t| t.name == "Documents").unwrap().id;
    c.add_tag_to_file(f1, docs).unwrap();

    let all = c.search_files(None, None, None);
    assert_eq!(all.len(), 2);
    let by_q = c.search_files(Some("report".to_string()), None, None);
    assert_eq!(by_q.len(), 1);
    assert_eq!(by_q[0].name, "Report.pdf");
    assert_eq!(by_q[0].tags.len(), 1);
    assert_eq!(by_q[0].tags[0].name, "Documents");
    let by_tag = c.search_files(None, Some(vec![docs]), None);
    assert_eq!(by_tag.len(), 1);
    assert_eq!(by_tag[0].id, f1);
    let by_ext = c.search_files(None, None, Some("mp3".to_string()));
    assert_eq!(by_ext.len(), 1);
    assert_eq!(by_ext[0].extension, "mp3");
    let none = c.search_files(Some("zzz".to_string()), None, None);
    assert!(none.is_empty());
}

#[test]
fn path_helpers_follow_the_name_model() {
    assert_eq!(get_file_name("/a/b/C.TXT").as_deref(), Some("C.TXT"));
    assert_eq!(get_file_stem("/a/b/C.TXT").as_deref(), Some("C"));
    assert_eq!(get_file_extension("/a/b/C.TXT").as_deref(), Some("txt"));
    assert_eq!(get_file_extension("/a/b/README"), None);
    assert_eq!(get_file_extension("/a/b/.bashrc"), None);
    assert_eq!(get_file_stem("/a/b/.bashrc").as_deref(), Some(".bashrc"));
    assert_eq!(get_file_name("/a/b/"), None);
    assert_eq!(join_path("/home/u", "Images"), "/home/u/Images");
    assert_eq!(join_path("/home/u/", "Images"), "/home/u/Images");
}

#[test]
fn mime_types_match_the_table() {
    assert_eq!(get_mime_type("PDF"), "application/pdf");
    assert_eq!(get_mime_type("jpeg"), "image/jpeg");
    assert_eq!(get_mime_type("weird"), "application/octet-stream");
}

#[test]
fn grouping_by_extension_and_category() {
    let files = vec![
        "/a/x.JPG".to_string(),
        "/a/y.pdf".to_string(),
        "/a/z.jpg".to_string(),
        "/a/noext".to_string(),
    ];
    let by_ext = group_files_by_extension(&files);
    assert_eq!(by_ext.len(), 3);
    assert_eq!(by_ext[0].0, "jpg");
    assert_eq!(by_ext[0].1, vec!["/a/x.JPG".to_string(), "/a/z.jpg".to_string()]);
    assert_eq!(by_ext[1].0, "pdf");
    assert_eq!(by_ext[2].0, "");
    let by_cat = categorize_files(&files);
    assert_eq!(by_cat[0].0, "Images");
    assert_eq!(by_cat[1].0, "Documents");
    assert_eq!(by_cat[2].0, "Other");
}

#[test]
fn search_orders_results_by_name() {
    let mut c = Catalog::new();
    for (path, name) in
        [("/d/b.txt", "b.txt"), ("/d/a.txt", "a.txt"), ("/d/c.txt", "c.txt"), ("/d/B.txt", "B.txt")]
    {
        c.add_file(
            path.to_string(),
            name.to_string(),
            "txt".to_string(),
            1,
            "t".to_string(),
            "t".to_string(),
        )
        .unwrap();
    }
    let r = c.search_files(None, None, None);
    let names: Vec<&str> = r.iter().map(|i| i.name.as_str()).collect();
    assert_eq!(names, ["B.txt", "a.txt", "b.txt", "c.txt"]);
}
