use mysql_dump_schedule::retention::{plan_retention, ArchiveFile};

fn folder(entries: &[(&str, u64)]) -> Vec<ArchiveFile> {
    entries
        .iter()
        .map(|(name, created)| ArchiveFile { name: name.to_string(), created: *created })
        .collect()
}

#[test]
fn ten_archives_keep_seven_drops_three_oldest() {
    let files = folder(&[
        ("d0.zip", 100),
        ("d1.zip", 30),
        ("d2.zip", 80),
        ("d3.zip", 10),
        ("d4.zip", 90),
        ("d5.zip", 20),
        ("d6.zip", 70),
        ("d7.zip", 60),
        ("d8.zip", 50),
        ("d9.zip", 40),
    ]);
    let plan = plan_retention(&files, 7);
    assert_eq!(plan.len(), 3);
    // the three oldest by creation time: d3 (10), d5 (20), d1 (30)
    assert_eq!(plan, vec![3, 5, 1]);
}

#[test]
fn at_most_keep_count_is_a_no_op() {
    let files = folder(&[("a.zip", 1), ("b.zip", 2)]);
    assert!(plan_retention(&files, 7).is_empty());
    assert!(plan_retention(&files, 2).is_empty());
    let none: Vec<ArchiveFile> = Vec::new();
    assert!(plan_retention(&none, 0).is_empty());
}

#[test]
fn keep_zero_drops_everything() {
    let files = folder(&[("a.zip", 5), ("b.zip", 1)]);
    let plan = plan_retention(&files, 0);
    assert_eq!(plan.len(), 2);
    assert_eq!(plan, vec![1, 0]);
}

#[test]
fn missing_creation_time_goes_first() {
    // a file with no readable creation time is recorded as time zero
    let files = folder(&[("young.zip", 500), ("unknown.zip", 0), ("old.zip", 100)]);
    let plan = plan_retention(&files, 2);
    assert_eq!(plan, vec![1]);
}

#[test]
fn equal_times_break_ties_by_listing_order() {
    let files = folder(&[("first.zip", 7), ("second.zip", 7), ("third.zip", 7)]);
    let plan = plan_retention(&files, 1);
    assert_eq!(plan, vec![0, 1]);
}
