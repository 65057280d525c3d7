use collage::naming::collage_file_name;
use collage::naming::pick_output_name;
use collage::naming::u64_to_decimal;

#[test]
fn formats_numbers_in_decimal() {
    assert_eq!(u64_to_decimal(0), "0");
    assert_eq!(u64_to_decimal(7), "7");
    assert_eq!(u64_to_decimal(10), "10");
    assert_eq!(u64_to_decimal(99), "99");
    assert_eq!(u64_to_decimal(1203), "1203");
    assert_eq!(u64_to_decimal(u64::MAX), "18446744073709551615");
}

#[test]
fn builds_collage_file_names() {
    assert_eq!(collage_file_name(0), "collage_0.png");
    assert_eq!(collage_file_name(42), "collage_42.png");
}

#[test]
fn picks_first_name_in_empty_directory() {
    let existing: Vec<String> = Vec::new();
    assert_eq!(pick_output_name(&existing), "collage_0.png");
}

#[test]
fn picks_next_free_suffix() {
    // with collage_0.png and collage_1.png present, the next run writes
    // collage_2.png
    let existing = vec![
        String::from("collage_0.png"),
        String::from("collage_1.png"),
    ];
    assert_eq!(pick_output_name(&existing), "collage_2.png");
}

#[test]
fn fills_a_gap_in_the_suffixes() {
    let existing = vec![
        String::from("collage_0.png"),
        String::from("collage_2.png"),
    ];
    assert_eq!(pick_output_name(&existing), "collage_1.png");
}

#[test]
fn ignores_unrelated_files() {
    let existing = vec![
        String::from("holiday.jpg"),
        String::from("collage_1.png"),
        String::from("notes.txt"),
    ];
    assert_eq!(pick_output_name(&existing), "collage_0.png");
}
