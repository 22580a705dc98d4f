//! Choice of the interface language from the locale identifier of the
//! operating system.

use crate::platform::Platform;
use vstd::prelude::*;
use vstd::string::*;

verus! {

/// Locale identifier that Windows reports for Russian (Russia).
pub const LCID_RUSSIAN: u32 = 1049;

/// The language tag chosen for a locale identifier: `ru` for the Russian
/// identifier, `en` for every other value.
pub open spec fn language_tag(lcid: u32) -> Seq<char> {
    if lcid == LCID_RUSSIAN {
        "ru"@
    } else {
        "en"@
    }
}

/// Maps the locale identifier of the user's default locale to one of the two
/// language tags.
pub fn detect_system_language(lcid: u32) -> (tag: String)
    ensures
        tag@ == language_tag(lcid),
{
    if lcid == LCID_RUSSIAN {
        "ru".to_string()
    } else {
        "en".to_string()
    }
}

/// The language tag for a platform and the locale identifier it reports.
/// Only Windows has a locale detector; the other platforms use `en`.
pub open spec fn system_language(platform: Platform, lcid: u32) -> Seq<char> {
    if platform.has_native_backend() {
        language_tag(lcid)
    } else {
        "en"@
    }
}

/// Chooses the language of the user interface. `lcid` is the locale
/// identifier of the user's default locale, which only Windows reports; on
/// the other platforms it is not looked at.
pub fn get_system_language(platform: Platform, lcid: u32) -> (tag: String)
    ensures
        tag@ == system_language(platform, lcid),
{
    if platform.is_native() {
        detect_system_language(lcid)
    } else {
        "en".to_string()
    }
}

/// The language tag is `ru` for the Russian locale identifier alone, and
/// `en` for every other one: no third tag exists.
pub proof fn lemma_two_languages(lcid: u32)
    ensures
        language_tag(lcid) == "ru"@ <==> lcid == LCID_RUSSIAN,
        language_tag(lcid) == "en"@ <==> lcid != LCID_RUSSIAN,
{
    reveal_strlit("ru");
    reveal_strlit("en");
    assert("ru"@[0] != "en"@[0]);
}

} // verus!
