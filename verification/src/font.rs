//! The record of one font file, and the rule that tells font files from
//! other directory entries.

use crate::path::{
    extension, file_name, joined, lemma_file_name_of_joined, lemma_name_start,
    lemma_stem_dot_extension, path_extension, path_stem, split_file_name, stem,
};
use crate::platform::Platform;
use crate::text::{chars_of, lowercase, to_lowercase};
use vstd::prelude::*;
use vstd::string::*;

verus! {

/// One font file found by a scan.
#[derive(Clone, Debug, PartialEq, Eq)]
pub struct FontInfo {
    /// File name without its extension. Two fonts may share it.
    pub name: String,
    /// Path of the file, which identifies the font.
    pub path: String,
    /// Whether the file lies in a directory that serves every user.
    pub is_system: bool,
}

/// A font record as a plain value: what [`FontInfo`] holds, read as
/// sequences of characters.
pub struct FontRecord {
    pub name: Seq<char>,
    pub path: Seq<char>,
    pub is_system: bool,
}

impl View for FontInfo {
    type V = FontRecord;

    open spec fn view(&self) -> FontRecord {
        FontRecord { name: self.name@, path: self.path@, is_system: self.is_system }
    }
}

/// Whether a lowercased extension is one of the two font extensions.
pub open spec fn is_font_extension_spec(lowered: Seq<char>) -> bool {
    lowered == seq!['t', 't', 'f'] || lowered == seq!['o', 't', 'f']
}

/// Whether `path` names a font file: its file name has an extension that is
/// `ttf` or `otf` once lowercased.
pub open spec fn names_font_file(path: Seq<char>, platform: Platform) -> bool {
    match path_extension(path, platform) {
        Some(e) => is_font_extension_spec(lowercase(e)),
        None => false,
    }
}

/// The record of the file at `path`, found under a root with the tag
/// `is_system`: its name is the stem of the file name.
pub open spec fn font_record(path: Seq<char>, is_system: bool, platform: Platform) -> FontRecord {
    FontRecord { name: path_stem(path, platform), path, is_system }
}

/// What a scan makes of the directory entry at `path`: a record where the
/// path names a font file, nothing otherwise.
pub open spec fn entry_font(path: Seq<char>, is_system: bool, platform: Platform) -> Option<
    FontRecord,
> {
    if names_font_file(path, platform) {
        Some(font_record(path, is_system, platform))
    } else {
        None
    }
}

impl FontRecord {
    /// What holds of every record that a scan makes: its path names a font
    /// file, and its name is the stem of that file's name.
    pub open spec fn well_formed(self, platform: Platform) -> bool {
        &&& names_font_file(self.path, platform)
        &&& self.name == path_stem(self.path, platform)
    }

    /// The key by which records are ordered: the lowercase form of the name.
    pub open spec fn sort_key(self) -> Seq<char> {
        lowercase(self.name)
    }
}

/// The values of a sequence of fonts.
pub open spec fn font_views(fonts: Seq<FontInfo>) -> Seq<FontRecord> {
    fonts.map_values(|f: FontInfo| f@)
}

/// The path of a well-formed record ends in the record's name, a dot and an
/// extension that is `ttf` or `otf` once lowercased; the name is not empty.
pub proof fn lemma_font_path_shape(record: FontRecord, platform: Platform)
    requires
        record.well_formed(platform),
    ensures
        path_extension(record.path, platform) matches Some(e) && is_font_extension_spec(
            lowercase(e),
        ) && (record.name + seq!['.'] + e).is_suffix_of(record.path),
        record.name.len() > 0,
{
    let name = file_name(record.path, platform);
    let e = path_extension(record.path, platform)->0;
    lemma_name_start(record.path, platform);
    lemma_stem_dot_extension(name);
    let tail = record.name + seq!['.'] + e;
    assert(tail == name);
    assert(record.path.subrange(record.path.len() - tail.len(), record.path.len() as int) =~= tail);
}

/// What a scan makes of an entry, told by the entry's own name: where the
/// name is one component, the entry gives a font exactly where the name has
/// an extension that is `ttf` or `otf` once lowercased, and the font is named
/// by the stem of the entry's name.
pub proof fn lemma_font_of_entry_name(
    dir: Seq<char>,
    name: Seq<char>,
    is_system: bool,
    platform: Platform,
)
    requires
        forall|i: int| 0 <= i < name.len() ==> !platform.is_separator(#[trigger] name[i]),
    ensures
        entry_font(joined(dir, name, platform), is_system, platform) == match extension(name) {
            Some(e) => if is_font_extension_spec(lowercase(e)) {
                Some(
                    FontRecord { name: stem(name), path: joined(dir, name, platform), is_system },
                )
            } else {
                None
            },
            None => None,
        },
{
    lemma_file_name_of_joined(dir, name, platform);
}

/// Tells whether an extension, already lowercased, is `ttf` or `otf`.
pub fn is_font_extension(lowered: &str) -> (b: bool)
    ensures
        b == is_font_extension_spec(lowered@),
{
    let chars = chars_of(lowered);
    if chars.len() != 3 {
        return false;
    }
    let is_font = (chars[0] == 't' || chars[0] == 'o') && chars[1] == 't' && chars[2] == 'f';
    proof {
        if is_font {
            assert(chars@ =~= seq![chars[0], 't', 'f']);
        }
    }
    is_font
}

/// Makes the record of the directory entry at `path`, or nothing where the
/// entry is no font file.
pub fn process_font_entry(path: &str, is_system: bool, platform: Platform) -> (font: Option<
    FontInfo,
>)
    ensures
        match font {
            Some(f) => entry_font(path@, is_system, platform) == Some(f@),
            None => entry_font(path@, is_system, platform) is None,
        },
{
    let parts = split_file_name(path, platform);
    match parts.extension {
        Some(extension) => {
            let lowered = to_lowercase(extension.as_str());
            if is_font_extension(lowered.as_str()) {
                Some(FontInfo { name: parts.stem, path: path.to_string(), is_system })
            } else {
                None
            }
        },
        None => None,
    }
}

} // verus!
