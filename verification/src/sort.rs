//! The order in which a scan returns its fonts: by the lowercase form of the
//! name, fonts of equal key in the order in which they were found.

use crate::font::{font_views, FontInfo, FontRecord};
use crate::order::{
    lemma_sorted_once, lemma_stably_sorted_contains, lemma_with_key_push, precedes, stable_sort_by_key, stably_sorted,
    with_key, Keyed,
};
use crate::text::{chars_of, to_lowercase};
use vstd::prelude::*;
use vstd::string::*;

verus! {

/// Whether the sort keys never go down along `fonts`.
pub open spec fn sorted_by_name(fonts: Seq<FontRecord>) -> bool {
    forall|i: int, j: int|
        0 <= i < j < fonts.len() ==> !precedes(
            #[trigger] fonts[j].sort_key(),
            #[trigger] fonts[i].sort_key(),
        )
}

/// The test that a font's sort key is `key`.
pub open spec fn has_sort_key(key: Seq<char>) -> spec_fn(FontRecord) -> bool {
    |f: FontRecord| f.sort_key() == key
}

/// The fonts of `fonts` whose sort key is `key`, in the order in which
/// `fonts` holds them.
pub open spec fn fonts_with_key(fonts: Seq<FontRecord>, key: Seq<char>) -> Seq<FontRecord> {
    fonts.filter(has_sort_key(key))
}

/// Whether `sorted` is `found` in the order of a scan's result: the sort keys
/// ascend, and under every key stand the same fonts in the same order as in
/// `found`.
pub open spec fn sorted_listing(found: Seq<FontRecord>, sorted: Seq<FontRecord>) -> bool {
    &&& sorted_by_name(sorted)
    &&& forall|key: Seq<char>| #[trigger] fonts_with_key(sorted, key) == fonts_with_key(found, key)
}

/// A scan has one result: two sequences that are each the sorted listing of
/// the fonts found are equal.
pub proof fn lemma_sorted_listing_unique(
    found: Seq<FontRecord>,
    first: Seq<FontRecord>,
    second: Seq<FontRecord>,
)
    requires
        sorted_listing(found, first),
        sorted_listing(found, second),
    ensures
        first == second,
{
    let key = |f: FontRecord| f.sort_key();
    let select = |k: Seq<char>| has_sort_key(k);
    assert forall|k: Seq<char>| #[trigger] first.filter(select(k)) == second.filter(select(k)) by {
        assert(fonts_with_key(first, k) == fonts_with_key(found, k));
        assert(fonts_with_key(second, k) == fonts_with_key(found, k));
    }
    lemma_sorted_once(first, second, key, select);
}

/// The records of keyed entries.
pub open spec fn items_of(entries: Seq<Keyed<FontInfo>>) -> Seq<FontRecord> {
    entries.map_values(|e: Keyed<FontInfo>| e.item@)
}

/// Whether every entry carries the sort key of its font.
pub open spec fn keyed_by_name(entries: Seq<Keyed<FontInfo>>) -> bool {
    forall|i: int| 0 <= i < entries.len() ==> (#[trigger] entries[i]).key@ == entries[i].item@.sort_key()
}

/// Among entries that carry the sort keys of their fonts, choosing by key and
/// taking the fonts is the same in either order.
proof fn lemma_items_with_key(entries: Seq<Keyed<FontInfo>>, key: Seq<char>)
    requires
        keyed_by_name(entries),
    ensures
        items_of(with_key(entries, key)) == fonts_with_key(items_of(entries), key),
    decreases entries.len(),
{
    if entries.len() == 0 {
        crate::order::lemma_with_key_empty::<FontInfo>(key);
        assert(items_of(entries) =~= Seq::<FontRecord>::empty());
        Seq::<FontRecord>::empty().lemma_filter_len(has_sort_key(key));
        assert(items_of(with_key(entries, key)) =~= fonts_with_key(items_of(entries), key));
    } else {
        let front = entries.drop_last();
        let last = entries.last();
        assert(keyed_by_name(front)) by {
            assert forall|i: int| 0 <= i < front.len() implies (#[trigger] front[i]).key@
                == front[i].item@.sort_key() by {
                assert(front[i] == entries[i]);
            }
        }
        lemma_items_with_key(front, key);
        assert(entries =~= front.push(last));
        lemma_with_key_push(front, last, key);
        assert(items_of(entries) =~= items_of(front).push(last.item@));
        items_of(front).lemma_filter_push(last.item@, has_sort_key(key));
        assert(last.key@ == last.item@.sort_key());
        if last.key@ == key {
            assert(items_of(with_key(front, key).push(last)) =~= items_of(
                with_key(front, key),
            ).push(last.item@));
        }
    }
}

/// Gives every font its sort key.
pub fn key_fonts(fonts: Vec<FontInfo>) -> (entries: Vec<Keyed<FontInfo>>)
    ensures
        items_of(entries@) == font_views(fonts@),
        keyed_by_name(entries@),
{
    let mut entries: Vec<Keyed<FontInfo>> = Vec::new();
    for font in it: fonts
        invariant
            it.seq() == fonts@,
            items_of(entries@) == font_views(it.seq().take(it.index())),
            keyed_by_name(entries@),
    {
        let ghost before = entries@;
        let lowered = to_lowercase(font.name.as_str());
        let key = chars_of(lowered.as_str());
        entries.push(Keyed { key, item: font });
        assert(it.seq().take(it.index() + 1) =~= it.seq().take(it.index()).push(font));
        assert(items_of(entries@) =~= items_of(before).push(font@));
        assert(font_views(it.seq().take(it.index()).push(font)) =~= font_views(
            it.seq().take(it.index()),
        ).push(font@));
    }
    assert(fonts@.take(fonts@.len() as int) =~= fonts@);
    entries
}

/// Takes the fonts out of their entries.
pub fn unkey_fonts(entries: Vec<Keyed<FontInfo>>) -> (fonts: Vec<FontInfo>)
    ensures
        font_views(fonts@) == items_of(entries@),
{
    let mut fonts: Vec<FontInfo> = Vec::new();
    for entry in it: entries
        invariant
            it.seq() == entries@,
            font_views(fonts@) == items_of(it.seq().take(it.index())),
    {
        let ghost before = fonts@;
        fonts.push(entry.item);
        assert(it.seq().take(it.index() + 1) =~= it.seq().take(it.index()).push(entry));
        assert(font_views(fonts@) =~= font_views(before).push(entry.item@));
        assert(items_of(it.seq().take(it.index()).push(entry)) =~= items_of(
            it.seq().take(it.index()),
        ).push(entry.item@));
    }
    assert(entries@.take(entries@.len() as int) =~= entries@);
    fonts
}

/// Puts the fonts that a scan found into the order of its result: ascending
/// by the lowercase form of the name, fonts with equal keys in the order in
/// which they were found.
pub fn sort_fonts(found: Vec<FontInfo>) -> (sorted: Vec<FontInfo>)
    ensures
        sorted_listing(font_views(found@), font_views(sorted@)),
        sorted.len() == found.len(),
        forall|i: int| 0 <= i < sorted.len() ==> font_views(found@).contains(#[trigger] sorted[i]@),
{
    let entries = key_fonts(found);
    let sorted_entries = stable_sort_by_key(entries);
    let sorted = unkey_fonts(sorted_entries);
    proof {
        let records = font_views(sorted@);
        assert(records.len() == sorted_entries.len());
        assert(font_views(found@).len() == entries.len());
        assert forall|i: int| 0 <= i < sorted_entries.len() implies (#[trigger] sorted_entries[i]).key@
            == sorted_entries[i].item@.sort_key() && font_views(found@).contains(
            sorted_entries[i].item@,
        ) by {
            lemma_stably_sorted_contains(entries@, sorted_entries@, i);
            let k = choose|k: int| 0 <= k < entries.len() && entries[k] == sorted_entries[i];
            assert(font_views(found@)[k] == entries[k].item@);
        }
        assert forall|key: Seq<char>| #[trigger]
            fonts_with_key(records, key) == fonts_with_key(font_views(found@), key) by {
            lemma_items_with_key(entries@, key);
            lemma_items_with_key(sorted_entries@, key);
            assert(with_key(sorted_entries@, key) == with_key(entries@, key));
        }
        assert forall|i: int, j: int| 0 <= i < j < records.len() implies !precedes(
            #[trigger] records[j].sort_key(),
            #[trigger] records[i].sort_key(),
        ) by {
            assert(records[i] == sorted_entries[i].item@);
            assert(records[j] == sorted_entries[j].item@);
        }
        assert forall|i: int| 0 <= i < sorted.len() implies font_views(found@).contains(
            #[trigger] sorted[i]@,
        ) by {
            assert(sorted[i]@ == records[i]);
            assert(records[i] == sorted_entries[i].item@);
        }
    }
    sorted
}

} // verus!
