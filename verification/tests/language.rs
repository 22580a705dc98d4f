use platform_api::locale::{detect_system_language, get_system_language, LCID_RUSSIAN};
use platform_api::platform::Platform;

#[test]
fn russian_identifier_gives_ru() {
    assert_eq!(LCID_RUSSIAN, 1049);
    assert_eq!(detect_system_language(1049), "ru");
}

#[test]
fn every_other_identifier_gives_en() {
    for lcid in [0u32, 1, 1033, 1048, 1050, 2073, 0x0419 + 0x400, 0xFFFF, u32::MAX] {
        assert_eq!(detect_system_language(lcid), "en", "lcid {}", lcid);
    }
}

#[test]
fn neighbours_of_the_russian_identifier_give_en() {
    assert_eq!(detect_system_language(LCID_RUSSIAN - 1), "en");
    assert_eq!(detect_system_language(LCID_RUSSIAN + 1), "en");
}

#[test]
fn windows_follows_the_locale_identifier() {
    assert_eq!(get_system_language(Platform::Windows, 1049), "ru");
    assert_eq!(get_system_language(Platform::Windows, 1033), "en");
}

#[test]
fn other_platforms_always_give_en() {
    for platform in [Platform::MacOs, Platform::Linux] {
        assert_eq!(get_system_language(platform, 1049), "en");
        assert_eq!(get_system_language(platform, 0), "en");
    }
}

#[test]
fn language_is_the_same_on_every_call() {
    let first = get_system_language(Platform::Windows, 1049);
    let second = get_system_language(Platform::Windows, 1049);
    assert_eq!(first, second);
    assert_eq!(get_system_language(Platform::Windows, 7), "en");
    assert_eq!(get_system_language(Platform::Windows, 1049), "ru");
}
