use platform_api::font::FontInfo;
use platform_api::order::{comes_before, insertion_point, stable_sort_by_key, Keyed};
use platform_api::sort::{key_fonts, sort_fonts, unkey_fonts};

fn chars(s: &str) -> Vec<char> {
    s.chars().collect()
}

fn font(name: &str, path: &str) -> FontInfo {
    FontInfo { name: name.to_string(), path: path.to_string(), is_system: false }
}

fn names(fonts: &[FontInfo]) -> Vec<String> {
    fonts.iter().map(|f| f.name.clone()).collect()
}

fn paths(fonts: &[FontInfo]) -> Vec<String> {
    fonts.iter().map(|f| f.path.clone()).collect()
}

#[test]
fn order_of_strings_is_by_code_point() {
    assert!(comes_before(&chars("a"), &chars("b")));
    assert!(!comes_before(&chars("b"), &chars("a")));
    assert!(!comes_before(&chars("a"), &chars("a")));
    assert!(comes_before(&chars(""), &chars("a")));
    assert!(!comes_before(&chars("a"), &chars("")));
    assert!(!comes_before(&chars(""), &chars("")));
    assert!(comes_before(&chars("ab"), &chars("abc")));
    assert!(comes_before(&chars("abc"), &chars("abd")));
    assert!(comes_before(&chars("Z"), &chars("a")));
    assert!(comes_before(&chars("z"), &chars("é")));
}

#[test]
fn order_of_strings_agrees_with_std() {
    let words = ["", "a", "A", "ab", "abc", "b", "é", "z", "\u{ffff}", "\u{10000}", "😀", "ａ"];
    for a in words {
        for b in words {
            assert_eq!(comes_before(&chars(a), &chars(b)), a < b, "{:?} {:?}", a, b);
        }
    }
}

#[test]
fn insertion_point_is_before_the_first_key_not_smaller() {
    let sorted = vec![
        Keyed { key: chars("a"), item: 0 },
        Keyed { key: chars("c"), item: 1 },
        Keyed { key: chars("c"), item: 2 },
        Keyed { key: chars("e"), item: 3 },
    ];
    assert_eq!(insertion_point(&sorted, &chars("")), 0);
    assert_eq!(insertion_point(&sorted, &chars("a")), 0);
    assert_eq!(insertion_point(&sorted, &chars("b")), 1);
    assert_eq!(insertion_point(&sorted, &chars("c")), 1);
    assert_eq!(insertion_point(&sorted, &chars("d")), 3);
    assert_eq!(insertion_point(&sorted, &chars("f")), 4);
}

#[test]
fn stable_sort_keeps_equal_keys_in_order() {
    let items = vec![
        Keyed { key: chars("b"), item: 1 },
        Keyed { key: chars("a"), item: 2 },
        Keyed { key: chars("b"), item: 3 },
        Keyed { key: chars("a"), item: 4 },
        Keyed { key: chars("c"), item: 5 },
        Keyed { key: chars("b"), item: 6 },
    ];
    let sorted = stable_sort_by_key(items);
    let got: Vec<(String, i32)> = sorted.iter().map(|e| (e.key.iter().collect(), e.item)).collect();
    let want: Vec<(String, i32)> = [("a", 2), ("a", 4), ("b", 1), ("b", 3), ("b", 6), ("c", 5)]
        .iter()
        .map(|(k, i)| (k.to_string(), *i))
        .collect();
    assert_eq!(got, want);
}

#[test]
fn stable_sort_of_nothing_and_of_one() {
    let none: Vec<Keyed<u8>> = Vec::new();
    assert_eq!(stable_sort_by_key(none).len(), 0);
    let one = stable_sort_by_key(vec![Keyed { key: chars("x"), item: 9u8 }]);
    assert_eq!(one.len(), 1);
    assert_eq!(one[0].item, 9);
}

#[test]
fn stable_sort_agrees_with_std_on_many_inputs() {
    let mut seed: u32 = 12345;
    for round in 0..50 {
        let mut items = Vec::new();
        let mut pairs = Vec::new();
        for i in 0..(round % 17) {
            seed = seed.wrapping_mul(1664525).wrapping_add(1013904223);
            let key = format!("{}", (seed >> 16) % 5);
            items.push(Keyed { key: chars(&key), item: i });
            pairs.push((key, i));
        }
        pairs.sort_by(|a, b| a.0.cmp(&b.0));
        let sorted = stable_sort_by_key(items);
        let got: Vec<(String, i32)> = sorted.iter().map(|e| (e.key.iter().collect(), e.item)).collect();
        assert_eq!(got, pairs);
    }
}

#[test]
fn keys_are_the_lowercase_names() {
    let entries = key_fonts(vec![font("Beta", "/b"), font("ÄRGER", "/a")]);
    assert_eq!(entries[0].key, chars("beta"));
    assert_eq!(entries[1].key, chars("ärger"));
    assert_eq!(entries[0].item, font("Beta", "/b"));
    let fonts = unkey_fonts(entries);
    assert_eq!(fonts, vec![font("Beta", "/b"), font("ÄRGER", "/a")]);
}

#[test]
fn fonts_are_sorted_without_regard_to_case() {
    let sorted = sort_fonts(vec![font("Zeta", "/f/Zeta.ttf"), font("alpha", "/f/alpha.otf"), font("Beta", "/f/Beta.TTF")]);
    assert_eq!(names(&sorted), vec!["alpha", "Beta", "Zeta"]);
}

#[test]
fn fonts_with_equal_keys_keep_their_order() {
    let sorted = sort_fonts(vec![
        font("b", "/1"),
        font("Arial", "/2"),
        font("arial", "/3"),
        font("ARIAL", "/4"),
        font("a", "/5"),
        font("arial", "/6"),
    ]);
    assert_eq!(paths(&sorted), vec!["/5", "/2", "/3", "/4", "/6", "/1"]);
}

#[test]
fn sort_agrees_with_the_sort_of_std() {
    let fonts = vec![
        font("Ubuntu", "/1"),
        font("DejaVu Sans", "/2"),
        font("dejavu sans", "/3"),
        font("Éclair", "/4"),
        font("eclair", "/5"),
        font("", "/6"),
        font("Zapf", "/7"),
        font("ubuntu", "/8"),
        font("10 Pitch", "/9"),
    ];
    let mut expected = fonts.clone();
    expected.sort_by(|a, b| a.name.to_lowercase().cmp(&b.name.to_lowercase()));
    assert_eq!(sort_fonts(fonts), expected);
}

#[test]
fn sort_of_no_fonts_is_empty() {
    assert_eq!(sort_fonts(Vec::new()), Vec::<FontInfo>::new());
}
