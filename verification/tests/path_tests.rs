use collage::pathsort::sort_keyed;
use collage::pathsort::sort_paths;
use collage::pathsort::str_le;

#[test]
fn compares_strings_lexicographically() {
    assert!(str_le("a", "b"));
    assert!(!str_le("b", "a"));
    assert!(str_le("a", "ab"));
    assert!(!str_le("ab", "a"));
    assert!(str_le("", "anything"));
    assert!(str_le("same", "same"));
    assert!(str_le("dir/a.png", "dir/b.png"));
    assert!(str_le("Z", "a"));
}

#[test]
fn sorts_paths_ascending() {
    let mut paths = vec![
        String::from("pics/b.png"),
        String::from("pics/a.png"),
        String::from("pics/c/z.jpg"),
        String::from("pics/aa.png"),
    ];
    sort_paths(&mut paths);
    assert_eq!(
        paths,
        vec![
            String::from("pics/a.png"),
            String::from("pics/aa.png"),
            String::from("pics/b.png"),
            String::from("pics/c/z.jpg"),
        ]
    );
}

#[test]
fn sorting_twice_gives_the_same_order() {
    let mut first = vec![
        String::from("c"),
        String::from("a"),
        String::from("b"),
    ];
    let mut second = first.clone();
    sort_paths(&mut first);
    sort_paths(&mut second);
    assert_eq!(first, second);
    // sorting sorted input changes nothing
    let again = first.clone();
    let mut resorted = first.clone();
    sort_paths(&mut resorted);
    assert_eq!(resorted, again);
}

#[test]
fn sorting_keeps_duplicates() {
    let mut paths = vec![
        String::from("x"),
        String::from("x"),
        String::from("a"),
    ];
    sort_paths(&mut paths);
    assert_eq!(paths, vec![String::from("a"), String::from("x"), String::from("x")]);
}

#[test]
fn keyed_sort_carries_the_payload() {
    let mut entries = vec![
        (String::from("pics/b.png"), 1u32),
        (String::from("pics/a.png"), 0u32),
        (String::from("pics/c.png"), 2u32),
    ];
    sort_keyed(&mut entries);
    assert_eq!(
        entries,
        vec![
            (String::from("pics/a.png"), 0u32),
            (String::from("pics/b.png"), 1u32),
            (String::from("pics/c.png"), 2u32),
        ]
    );
}

#[test]
fn sorts_empty_and_singleton() {
    let mut empty: Vec<String> = Vec::new();
    sort_paths(&mut empty);
    assert!(empty.is_empty());
    let mut one = vec![String::from("only")];
    sort_paths(&mut one);
    assert_eq!(one, vec![String::from("only")]);
}
