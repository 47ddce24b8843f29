use std::io::{Cursor, Read};

use mysql_dump_schedule::archive::{archive_file_names, build_archive, current_stamp};
use mysql_dump_schedule::config::DatabaseConfig;
use mysql_dump_schedule::dump::{dump_args, record_attempt, sort_outcomes_by_duration, DumpOutcome};

fn config() -> DatabaseConfig {
    DatabaseConfig::from_parts(
        "db.example".to_string(),
        "3307",
        "backup".to_string(),
        "pw".to_string(),
        "*",
        "",
        "/srv/dumps".to_string(),
        "".to_string(),
        "7",
        "passphrase".to_string(),
    )
    .unwrap()
}

#[test]
fn dump_args_spell_out_the_command() {
    let args = dump_args(&config(), &"app".to_string());
    assert_eq!(
        args,
        vec![
            "mysqldump".to_string(),
            "--host=db.example".to_string(),
            "--port=3307".to_string(),
            "--user=backup".to_string(),
            "--password=pw".to_string(),
            "app".to_string(),
        ]
    );
}

#[test]
fn file_names_without_stamp() {
    let (raw, zipped, entry) =
        archive_file_names(&"/srv/dumps".to_string(), &"app".to_string(), None);
    assert_eq!(raw, "/srv/dumps/app.sql");
    assert_eq!(zipped, "/srv/dumps/app.zip");
    assert_eq!(entry, "app.sql");
}

#[test]
fn file_names_with_stamp() {
    let stamp = "20260101".to_string();
    let (raw, zipped, entry) =
        archive_file_names(&"/srv/dumps".to_string(), &"app".to_string(), Some(&stamp));
    assert_eq!(raw, "/srv/dumps/app_20260101.sql");
    assert_eq!(zipped, "/srv/dumps/app_20260101.zip");
    assert_eq!(entry, "app_20260101.sql");
}

#[test]
fn empty_format_yields_no_stamp() {
    assert_eq!(current_stamp(&"".to_string()), None);
}

#[test]
fn year_format_yields_a_stamp() {
    let stamp = current_stamp(&"%Y".to_string()).unwrap();
    assert_eq!(stamp.len(), 4);
    assert!(stamp.chars().all(|c| c.is_ascii_digit()));
}

#[test]
fn invalid_format_yields_no_stamp() {
    assert_eq!(current_stamp(&"%Q".to_string()), None);
}

#[test]
fn outcomes_sort_by_duration_ascending() {
    let outcomes = vec![
        DumpOutcome { index: 0, database: "slow".to_string(), micros: 900, success: true },
        DumpOutcome { index: 1, database: "fast".to_string(), micros: 10, success: true },
        DumpOutcome { index: 2, database: "mid".to_string(), micros: 400, success: true },
    ];
    let sorted = sort_outcomes_by_duration(outcomes);
    assert_eq!(sorted.len(), 3);
    assert_eq!(sorted[0].database, "fast");
    assert_eq!(sorted[1].database, "mid");
    assert_eq!(sorted[2].database, "slow");
    assert!(sorted[0].micros <= sorted[1].micros && sorted[1].micros <= sorted[2].micros);
}

#[test]
fn equal_durations_keep_attempt_order() {
    let outcomes = vec![
        DumpOutcome { index: 0, database: "first".to_string(), micros: 250, success: true },
        DumpOutcome { index: 1, database: "second".to_string(), micros: 250, success: true },
        DumpOutcome { index: 2, database: "quick".to_string(), micros: 5, success: true },
        DumpOutcome { index: 3, database: "third".to_string(), micros: 250, success: true },
    ];
    let sorted = sort_outcomes_by_duration(outcomes);
    assert_eq!(sorted.len(), 4);
    assert_eq!(sorted[0].database, "quick");
    assert_eq!(sorted[1].database, "first");
    assert_eq!(sorted[2].database, "second");
    assert_eq!(sorted[3].database, "third");
}

#[test]
fn only_successful_attempts_are_recorded() {
    let mut outcomes: Vec<DumpOutcome> = Vec::new();
    record_attempt(&mut outcomes, 0, "ok1".to_string(), 120, true);
    record_attempt(&mut outcomes, 1, "broken".to_string(), 55, false);
    record_attempt(&mut outcomes, 2, "ok2".to_string(), 70, true);
    assert_eq!(outcomes.len(), 2);
    assert_eq!(outcomes[0].database, "ok1");
    assert_eq!(outcomes[0].index, 0);
    assert!(outcomes[0].success);
    assert_eq!(outcomes[1].database, "ok2");
    assert_eq!(outcomes[1].index, 2);
    assert!(outcomes.iter().all(|o| o.database != "broken"));
}

#[test]
fn archive_round_trips_through_the_zip_reader() {
    let entry = "db1.sql".to_string();
    let data: Vec<u8> = b"CREATE TABLE t (x INT);".to_vec();
    let pass = "passphrase".to_string();
    let bytes = build_archive(&entry, &data, &pass).unwrap();
    assert!(!bytes.is_empty());
    let mut archive = zip::ZipArchive::new(Cursor::new(bytes)).unwrap();
    let mut file = archive.by_name_decrypt("db1.sql", b"passphrase").unwrap();
    let mut out = Vec::new();
    file.read_to_end(&mut out).unwrap();
    assert_eq!(out, data);
}

#[test]
fn second_archive_reflects_the_second_input() {
    // writing an archive for the same target twice: the archive in
    // place afterwards is the second call's, holding its bytes
    let entry = "db1.sql".to_string();
    let pass = "passphrase".to_string();
    let first: Vec<u8> = b"first dump".to_vec();
    let second: Vec<u8> = b"second dump, rather longer".to_vec();
    let _ = build_archive(&entry, &first, &pass).unwrap();
    let replacement = build_archive(&entry, &second, &pass).unwrap();
    let mut archive = zip::ZipArchive::new(Cursor::new(replacement)).unwrap();
    assert_eq!(archive.len(), 1);
    let mut file = archive.by_name_decrypt("db1.sql", b"passphrase").unwrap();
    let mut out = Vec::new();
    file.read_to_end(&mut out).unwrap();
    assert_eq!(out, second);
}
