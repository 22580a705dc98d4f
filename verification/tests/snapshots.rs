use platform_api::font::FontInfo;
use platform_api::platform::Platform;
use platform_api::roots::Environment;
use platform_api::scan::{DirEntry, DirListing};
use platform_api::snapshot::{find_listing, get_system_fonts, Directory};

fn entry(name: &str) -> DirEntry {
    if name.ends_with('/') {
        DirEntry::Directory { name: name.trim_end_matches('/').to_string() }
    } else {
        DirEntry::File { name: name.to_string() }
    }
}

fn directory(path: &str, identity: &str, names: &[&str]) -> Directory {
    Directory {
        path: path.to_string(),
        listing: DirListing { identity: identity.to_string(), entries: names.iter().map(|n| entry(n)).collect() },
    }
}

fn home(path: &str) -> Environment {
    Environment { windir: None, local_app_data: None, home: Some(path.to_string()) }
}

fn windows(windir: &str, local: &str) -> Environment {
    Environment { windir: Some(windir.to_string()), local_app_data: Some(local.to_string()), home: None }
}

fn font(name: &str, path: &str, is_system: bool) -> FontInfo {
    FontInfo { name: name.to_string(), path: path.to_string(), is_system }
}

#[test]
fn find_listing_gives_the_first_directory_at_the_path() {
    let disk = vec![directory("/a", "1", &["x"]), directory("/b", "2", &[]), directory("/a", "3", &[])];
    assert_eq!(find_listing(&disk, &"/a".to_string()).map(|l| l.identity.as_str()), Some("1"));
    assert_eq!(find_listing(&disk, &"/b".to_string()).map(|l| l.identity.as_str()), Some("2"));
    assert_eq!(find_listing(&disk, &"/c".to_string()), None);
    assert_eq!(find_listing(&Vec::new(), &"/a".to_string()), None);
}

#[test]
fn fonts_of_an_empty_disk() {
    for platform in [Platform::Windows, Platform::MacOs, Platform::Linux] {
        assert_eq!(get_system_fonts(platform, &home("/home/u"), &Vec::new()), Vec::<FontInfo>::new());
        assert_eq!(get_system_fonts(platform, &windows("C:\\W", "C:\\L"), &Vec::new()), Vec::<FontInfo>::new());
    }
}

#[test]
fn fonts_of_a_linux_disk() {
    let disk = vec![
        directory("/usr/share/fonts", "1", &["truetype/", "Zeta.ttf", "notes.txt"]),
        directory("/usr/share/fonts/truetype", "2", &["alpha.otf", "dejavu/"]),
        directory("/usr/share/fonts/truetype/dejavu", "3", &["DejaVuSans.ttf"]),
        directory("/home/u/.local/share/fonts", "4", &["Beta.TTF"]),
        directory("/somewhere/else", "5", &["Other.ttf"]),
    ];
    let fonts = get_system_fonts(Platform::Linux, &home("/home/u"), &disk);
    assert_eq!(
        fonts,
        vec![
            font("alpha", "/usr/share/fonts/truetype/alpha.otf", true),
            font("Beta", "/home/u/.local/share/fonts/Beta.TTF", false),
            font("DejaVuSans", "/usr/share/fonts/truetype/dejavu/DejaVuSans.ttf", true),
            font("Zeta", "/usr/share/fonts/Zeta.ttf", true),
        ]
    );
}

#[test]
fn fonts_of_a_macos_disk() {
    let disk = vec![
        directory("/System/Library/Fonts", "1", &["Helvetica.ttf", "Supplemental/"]),
        directory("/System/Library/Fonts/Supplemental", "2", &["Hidden.ttf"]),
        directory("/Library/Fonts", "3", &["Arial.otf"]),
        directory("/Users/u/Library/Fonts", "4", &["Mine.ttf"]),
    ];
    let fonts = get_system_fonts(Platform::MacOs, &home("/Users/u"), &disk);
    assert_eq!(
        fonts,
        vec![
            font("Arial", "/Library/Fonts/Arial.otf", true),
            font("Helvetica", "/System/Library/Fonts/Helvetica.ttf", true),
            font("Mine", "/Users/u/Library/Fonts/Mine.ttf", false),
        ]
    );
}

#[test]
fn fonts_of_a_windows_disk() {
    let disk = vec![
        directory("C:\\Windows\\Fonts", "1", &["arial.ttf", "Calibri.TTF", "desktop.ini"]),
        directory("C:\\Users\\u\\AppData\\Local\\Microsoft\\Windows\\Fonts", "2", &["Brand.otf"]),
    ];
    let fonts = get_system_fonts(Platform::Windows, &windows("C:\\Windows", "C:\\Users\\u\\AppData\\Local"), &disk);
    assert_eq!(
        fonts,
        vec![
            font("arial", "C:\\Windows\\Fonts\\arial.ttf", true),
            font("Brand", "C:\\Users\\u\\AppData\\Local\\Microsoft\\Windows\\Fonts\\Brand.otf", false),
            font("Calibri", "C:\\Windows\\Fonts\\Calibri.TTF", true),
        ]
    );
}

#[test]
fn a_disk_with_links_in_circles_is_scanned_to_the_end() {
    // Each directory holds links to itself and to the other.
    let disk = vec![
        directory("/usr/share/fonts", "a", &["self/", "other/", "a.ttf"]),
        directory("/usr/share/fonts/self", "a", &["self/", "other/", "a.ttf"]),
        directory("/usr/share/fonts/other", "b", &["self/", "other/", "b.ttf"]),
        directory("/usr/share/fonts/other/self", "b", &["self/", "other/", "b.ttf"]),
        directory("/usr/share/fonts/other/other", "a", &["self/", "other/", "a.ttf"]),
    ];
    let fonts = get_system_fonts(Platform::Linux, &home("/home/u"), &disk);
    assert_eq!(
        fonts,
        vec![font("a", "/usr/share/fonts/a.ttf", true), font("b", "/usr/share/fonts/other/b.ttf", true)]
    );
}

#[test]
fn a_user_root_inside_a_system_root_is_scanned_under_both() {
    let disk = vec![
        directory("/usr/share/fonts", "1", &[".local/"]),
        directory("/usr/share/fonts/.local", "2", &["share/"]),
        directory("/usr/share/fonts/.local/share", "3", &["fonts/"]),
        directory("/usr/share/fonts/.local/share/fonts", "4", &["x.ttf"]),
    ];
    let fonts = get_system_fonts(Platform::Linux, &home("/usr/share/fonts"), &disk);
    assert_eq!(
        fonts,
        vec![
            font("x", "/usr/share/fonts/.local/share/fonts/x.ttf", true),
            font("x", "/usr/share/fonts/.local/share/fonts/x.ttf", false),
        ]
    );
}

#[test]
fn fonts_are_the_same_on_every_call() {
    let disk = vec![directory("/usr/share/fonts", "1", &["b.ttf", "a.otf"])];
    let first = get_system_fonts(Platform::Linux, &home("/h"), &disk);
    let second = get_system_fonts(Platform::Linux, &home("/h"), &disk);
    assert_eq!(first, second);
    assert_eq!(first, vec![font("a", "/usr/share/fonts/a.otf", true), font("b", "/usr/share/fonts/b.ttf", true)]);
    assert_eq!(get_system_fonts(Platform::Linux, &home("/h"), &Vec::new()), Vec::<FontInfo>::new());
}
