use platform_api::font::{is_font_extension, process_font_entry, FontInfo};
use platform_api::path::{find_last_dot, find_name_start, join_path, split_file_name};
use platform_api::platform::Platform;
use platform_api::text::chars_of;

fn split(path: &str, platform: Platform) -> (String, Option<String>) {
    let parts = split_file_name(path, platform);
    (parts.stem, parts.extension)
}

fn some(s: &str) -> Option<String> {
    Some(s.to_string())
}

#[test]
fn chars_of_gives_the_characters_in_order() {
    assert_eq!(chars_of("aß€😀"), vec!['a', 'ß', '€', '😀']);
    assert_eq!(chars_of(""), Vec::<char>::new());
}

#[test]
fn separators_differ_by_platform() {
    assert!(Platform::Windows.separates('\\'));
    assert!(Platform::Windows.separates('/'));
    assert!(Platform::Linux.separates('/'));
    assert!(!Platform::Linux.separates('\\'));
    assert!(!Platform::MacOs.separates('\\'));
    assert!(!Platform::Windows.separates(':'));
}

#[test]
fn only_linux_recurses() {
    assert!(Platform::Linux.recurses());
    assert!(!Platform::Windows.recurses());
    assert!(!Platform::MacOs.recurses());
}

#[test]
fn name_start_follows_the_last_separator() {
    let chars = chars_of("/usr/share/fonts/a.ttf");
    assert_eq!(find_name_start(&chars, Platform::Linux), 17);
    assert_eq!(find_name_start(&chars_of("a.ttf"), Platform::Linux), 0);
    assert_eq!(find_name_start(&chars_of("dir/"), Platform::Linux), 4);
    assert_eq!(find_name_start(&chars_of(""), Platform::Linux), 0);
    assert_eq!(find_name_start(&chars_of("C:\\Fonts\\a.ttf"), Platform::Windows), 9);
    assert_eq!(find_name_start(&chars_of("C:\\Fonts\\a.ttf"), Platform::Linux), 0);
}

#[test]
fn last_dot_is_searched_in_the_file_name_only() {
    let chars = chars_of("/a.b/cde");
    assert_eq!(find_last_dot(&chars, 5), None);
    assert_eq!(find_last_dot(&chars, 0), Some(2));
    let chars = chars_of("x.tar.gz");
    assert_eq!(find_last_dot(&chars, 0), Some(5));
}

#[test]
fn split_plain_names() {
    assert_eq!(split("Zeta.ttf", Platform::Linux), ("Zeta".to_string(), some("ttf")));
    assert_eq!(split("/a/b/c.OTF", Platform::Linux), ("c".to_string(), some("OTF")));
    assert_eq!(split("noext", Platform::Linux), ("noext".to_string(), None));
    assert_eq!(split("a.b.c", Platform::Linux), ("a.b".to_string(), some("c")));
    assert_eq!(split("name.", Platform::Linux), ("name".to_string(), some("")));
}

#[test]
fn split_names_that_begin_with_a_dot() {
    assert_eq!(split(".hidden", Platform::Linux), (".hidden".to_string(), None));
    assert_eq!(split("/x/.ttf", Platform::Linux), (".ttf".to_string(), None));
    assert_eq!(split(".a.ttf", Platform::Linux), (".a".to_string(), some("ttf")));
}

#[test]
fn split_ignores_dots_in_directories() {
    assert_eq!(split("dir.d/file", Platform::Linux), ("file".to_string(), None));
    assert_eq!(split("dir.ttf/", Platform::Linux), ("".to_string(), None));
    assert_eq!(split("", Platform::Linux), ("".to_string(), None));
}

#[test]
fn split_windows_paths() {
    assert_eq!(split("C:\\Windows\\Fonts\\arial.TTF", Platform::Windows), ("arial".to_string(), some("TTF")));
    assert_eq!(split("C:/Windows/Fonts/arial.ttf", Platform::Windows), ("arial".to_string(), some("ttf")));
    // A backslash is an ordinary character elsewhere.
    assert_eq!(split("a\\b.ttf", Platform::Linux), ("a\\b".to_string(), some("ttf")));
}

#[test]
fn split_agrees_with_std_on_entry_paths() {
    for path in ["/usr/share/fonts/DejaVuSans.ttf", "/f/a.b.OTF", "/f/.profile", "/f/README", "/f/x.", "/f/ünï.tTf"] {
        let p = std::path::Path::new(path);
        let (stem, extension) = split(path, Platform::Linux);
        assert_eq!(Some(stem), p.file_stem().map(|s| s.to_string_lossy().to_string()), "{}", path);
        assert_eq!(extension, p.extension().map(|s| s.to_string_lossy().to_string()), "{}", path);
    }
}

#[test]
fn join_adds_one_separator() {
    assert_eq!(join_path("/usr/share/fonts", "a.ttf", Platform::Linux), "/usr/share/fonts/a.ttf");
    assert_eq!(join_path("/usr/share/fonts/", "a.ttf", Platform::Linux), "/usr/share/fonts/a.ttf");
    assert_eq!(join_path("", "a.ttf", Platform::Linux), "a.ttf");
    assert_eq!(join_path("/", "a.ttf", Platform::MacOs), "/a.ttf");
    assert_eq!(join_path("C:\\Windows", "Fonts", Platform::Windows), "C:\\Windows\\Fonts");
    assert_eq!(join_path("C:\\Windows\\", "Fonts", Platform::Windows), "C:\\Windows\\Fonts");
    assert_eq!(join_path("C:/Windows/", "Fonts", Platform::Windows), "C:/Windows/Fonts");
    assert_eq!(join_path("a\\", "b", Platform::Linux), "a\\/b");
    assert_eq!(join_path("dir", "", Platform::Linux), "dir/");
}

#[test]
fn font_extensions_are_ttf_and_otf() {
    assert!(is_font_extension("ttf"));
    assert!(is_font_extension("otf"));
    assert!(!is_font_extension("TTF"));
    assert!(!is_font_extension("ttc"));
    assert!(!is_font_extension("otc"));
    assert!(!is_font_extension("tof"));
    assert!(!is_font_extension("oft"));
    assert!(!is_font_extension(""));
    assert!(!is_font_extension("tt"));
    assert!(!is_font_extension("ttff"));
    assert!(!is_font_extension("woff"));
}

#[test]
fn font_entry_of_a_font_file() {
    let font = process_font_entry("/fonts/Beta.TTF", true, Platform::Linux);
    assert_eq!(
        font,
        Some(FontInfo { name: "Beta".to_string(), path: "/fonts/Beta.TTF".to_string(), is_system: true })
    );
    let font = process_font_entry("C:\\Windows\\Fonts\\seg.oe.OtF", false, Platform::Windows);
    assert_eq!(
        font,
        Some(FontInfo {
            name: "seg.oe".to_string(),
            path: "C:\\Windows\\Fonts\\seg.oe.OtF".to_string(),
            is_system: false
        })
    );
}

#[test]
fn font_entry_of_other_files() {
    for path in ["/fonts/readme.txt", "/fonts/ttf", "/fonts/.ttf", "/fonts/a.ttf/", "/fonts/a.ttc", "/fonts/a.ttf.bak", "", "/fonts.otf/x"] {
        assert_eq!(process_font_entry(path, true, Platform::Linux), None, "{}", path);
    }
}

#[test]
fn font_entry_lowercases_the_extension_as_std_does() {
    // The lowercase form comes from the standard library: a wrapper that
    // handed its argument back would refuse these.
    assert!(process_font_entry("a.TtF", false, Platform::MacOs).is_some());
    assert!(process_font_entry("a.OTF", false, Platform::MacOs).is_some());
}
