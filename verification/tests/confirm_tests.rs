use collage::confirm::is_affirmative;
use collage::confirm::needs_confirmation;

#[test]
fn asks_above_one_hundred_megabytes() {
    assert!(needs_confirmation(&vec![100_000_001]));
    assert!(needs_confirmation(&vec![101_000_000]));
    assert!(needs_confirmation(&vec![50_000_000, 51_000_000]));
    // 50,500,000 bytes twice is 101 MB together
    assert!(needs_confirmation(&vec![50_500_000, 50_500_000]));
    assert!(needs_confirmation(&vec![1_000_000; 101]));
}

#[test]
fn does_not_ask_at_or_below_the_threshold() {
    assert!(!needs_confirmation(&Vec::new()));
    assert!(!needs_confirmation(&vec![100_000_000]));
    assert!(!needs_confirmation(&vec![1_000_000; 100]));
}

#[test]
fn every_byte_counts_toward_the_total() {
    // byte sizes are summed, so many files just under a megabyte add up
    assert!(needs_confirmation(&vec![999_999; 200]));
    assert!(needs_confirmation(&vec![1_999_999; 51]));
    assert!(!needs_confirmation(&vec![999_999; 100]));
}

#[test]
fn accepts_yes_in_any_case() {
    assert!(is_affirmative("y"));
    assert!(is_affirmative("Y"));
    assert!(is_affirmative("yes"));
    assert!(is_affirmative("YES"));
    assert!(is_affirmative("Yes"));
    assert!(is_affirmative("yEs"));
}

#[test]
fn accepts_yes_with_surrounding_whitespace() {
    assert!(is_affirmative("yes\n"));
    assert!(is_affirmative("  y \r\n"));
    assert!(is_affirmative("\ty\n"));
    // Unicode whitespace is stripped too, as str::trim does
    assert!(is_affirmative("\u{00A0}yes"));
    assert!(is_affirmative("\u{3000}Y\u{2028}\n"));
}

#[test]
fn declines_everything_else() {
    // a declined confirmation: the run stops and writes nothing
    assert!(!is_affirmative("n"));
    assert!(!is_affirmative("no"));
    assert!(!is_affirmative(""));
    assert!(!is_affirmative("\n"));
    assert!(!is_affirmative("   "));
    assert!(!is_affirmative("\u{00A0}"));
    assert!(!is_affirmative("yess"));
    assert!(!is_affirmative("ye"));
    assert!(!is_affirmative("y e s"));
    assert!(!is_affirmative("oui"));
}
