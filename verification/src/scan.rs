//! The font scan as a state machine. The scan names the directory that it
//! wants read; its caller reads that directory and answers with the listing;
//! the scan decides what to keep and where to go next.

use crate::font::{entry_font, font_views, process_font_entry, FontInfo, FontRecord};
use crate::path::{
    join_path, joined, lemma_ancestors_nest, lemma_extension_needs_name, lemma_joined_within,
    lemma_lies_under_transitive, lies_under, within,
};
use crate::platform::Platform;
use crate::roots::{root_views, FontRoot, RootView};
use crate::sort::{sort_fonts, sorted_listing};
use vstd::prelude::*;
use vstd::string::*;

verus! {

/// One entry of a directory, as the file system gave it.
#[derive(Clone, Debug, PartialEq, Eq)]
pub enum DirEntry {
    /// An entry that could not be read.
    Unreadable,
    /// Anything that is not a directory, with its file name.
    File { name: String },
    /// A directory, with its file name.
    Directory { name: String },
}

/// A directory entry as a plain value.
pub enum EntryView {
    Unreadable,
    File { name: Seq<char> },
    Directory { name: Seq<char> },
}

impl View for DirEntry {
    type V = EntryView;

    open spec fn view(&self) -> EntryView {
        match self {
            DirEntry::Unreadable => EntryView::Unreadable,
            DirEntry::File { name } => EntryView::File { name: name@ },
            DirEntry::Directory { name } => EntryView::Directory { name: name@ },
        }
    }
}

/// What was read of one directory.
#[derive(Clone, Debug, PartialEq, Eq)]
pub struct DirListing {
    /// A name that the directory has by whatever path it is reached, such as
    /// its canonical path. It tells a directory that contains itself through
    /// a link.
    pub identity: String,
    /// The entries in the order in which the file system gave them.
    pub entries: Vec<DirEntry>,
}

/// A listing as a plain value.
pub struct ListingView {
    pub identity: Seq<char>,
    pub entries: Seq<EntryView>,
}

impl View for DirListing {
    type V = ListingView;

    open spec fn view(&self) -> ListingView {
        ListingView { identity: self.identity@, entries: self.entries@.map_values(|e: DirEntry| e@) }
    }
}

/// The value of an answer to a request: a listing, or nothing where the
/// directory is absent or cannot be read.
pub open spec fn answer_view(listing: Option<&DirListing>) -> Option<ListingView> {
    match listing {
        Some(l) => Some(l@),
        None => None,
    }
}

/// A directory that waits to be read.
pub struct PendingDir {
    pub path: String,
    pub is_system: bool,
    /// How many directories lie above this one on the way from its root:
    /// none above a root.
    pub depth: usize,
}

/// A waiting directory as a plain value.
pub struct PendingView {
    pub path: Seq<char>,
    pub is_system: bool,
    pub depth: nat,
}

impl View for PendingDir {
    type V = PendingView;

    open spec fn view(&self) -> PendingView {
        PendingView { path: self.path@, is_system: self.is_system, depth: self.depth as nat }
    }
}

/// The values of a sequence of waiting directories.
pub open spec fn pending_views(dirs: Seq<PendingDir>) -> Seq<PendingView> {
    dirs.map_values(|d: PendingDir| d@)
}

/// The values of a sequence of strings.
pub open spec fn text_views(texts: Seq<String>) -> Seq<Seq<char>> {
    texts.map_values(|t: String| t@)
}

/// The state of a scan as a plain value.
pub struct ScanView {
    pub platform: Platform,
    /// The roots that the scan was started with.
    pub roots: Seq<RootView>,
    /// The directories still to read. The last one is read next.
    pub pending: Seq<PendingView>,
    /// The identities of the directories on the way from the root to the
    /// directory that was listed last.
    pub chain: Seq<Seq<char>>,
    /// The fonts found so far, in the order in which they were found.
    pub found: Seq<FontRecord>,
}

/// What an entry of the directory `dir` adds to the fonts: the record of a
/// file that is a font file.
pub open spec fn listed_font(dir: Seq<char>, is_system: bool, platform: Platform) -> spec_fn(
    EntryView,
) -> Option<FontRecord> {
    |e: EntryView|
        match e {
            EntryView::File { name } => entry_font(
                joined(dir, name, platform),
                is_system,
                platform,
            ),
            _ => None,
        }
}

/// What an entry of the directory `dir` adds to the directories to read: a
/// subdirectory, where the platform scans those.
pub open spec fn listed_subdir(
    dir: Seq<char>,
    is_system: bool,
    depth: nat,
    platform: Platform,
) -> spec_fn(EntryView) -> Option<PendingView> {
    |e: EntryView|
        match e {
            EntryView::Directory { name } => if platform.scans_subdirectories() {
                Some(PendingView { path: joined(dir, name, platform), is_system, depth })
            } else {
                None
            },
            _ => None,
        }
}

/// The fonts among the entries of `dir`, in the order of the listing.
pub open spec fn listing_fonts(
    dir: Seq<char>,
    is_system: bool,
    entries: Seq<EntryView>,
    platform: Platform,
) -> Seq<FontRecord> {
    entries.filter_map(listed_font(dir, is_system, platform))
}

/// The subdirectories of `dir` that the scan will read, in the order of the
/// listing.
pub open spec fn listing_subdirs(
    dir: Seq<char>,
    is_system: bool,
    depth: nat,
    entries: Seq<EntryView>,
    platform: Platform,
) -> Seq<PendingView> {
    entries.filter_map(listed_subdir(dir, is_system, depth, platform))
}

/// The roots as waiting directories.
pub open spec fn roots_pending(roots: Seq<RootView>) -> Seq<PendingView> {
    roots.map_values(|r: RootView| PendingView { path: r.path, is_system: r.is_system, depth: 0 })
}

/// Whether `path` lies under one of `roots` that carries the tag
/// `is_system`.
pub open spec fn under_root(
    roots: Seq<RootView>,
    path: Seq<char>,
    is_system: bool,
    platform: Platform,
) -> bool {
    exists|k: int|
        0 <= k < roots.len() && (#[trigger] roots[k]).is_system == is_system && lies_under(
            path,
            roots[k].path,
            platform,
        )
}

/// Whether `path` is one of `roots` that carries the tag `is_system`, or lies
/// under one.
pub open spec fn within_root(
    roots: Seq<RootView>,
    path: Seq<char>,
    is_system: bool,
    platform: Platform,
) -> bool {
    exists|k: int|
        0 <= k < roots.len() && (#[trigger] roots[k]).is_system == is_system && within(
            path,
            roots[k].path,
            platform,
        )
}

impl ScanView {
    /// The state in which a scan of `roots` begins: every root waits, the
    /// first root on top, and nothing is found.
    pub open spec fn started(platform: Platform, roots: Seq<RootView>) -> ScanView {
        ScanView {
            platform,
            roots,
            pending: roots_pending(roots).reverse(),
            chain: Seq::empty(),
            found: Seq::empty(),
        }
    }

    /// The directory that the scan wants read next, if any.
    pub open spec fn request(self) -> Option<Seq<char>> {
        if self.pending.len() > 0 {
            Some(self.pending.last().path)
        } else {
            None
        }
    }

    /// Whether no directory is left to read.
    pub open spec fn finished(self) -> bool {
        self.pending.len() == 0
    }

    /// The identities of the directories above the one that is read next.
    pub open spec fn ancestors(self) -> Seq<Seq<char>> {
        if self.pending.len() > 0 && self.pending.last().depth <= self.chain.len() {
            self.chain.take(self.pending.last().depth as int)
        } else {
            self.chain
        }
    }

    /// The state after the answer to the request.
    ///
    /// A directory that is absent or unreadable adds nothing. So does one
    /// whose identity is that of a directory above it: it was reached through
    /// a link that leads back up. Of any other directory the font files are
    /// added to the fonts found, in the order of the listing, and then its
    /// subdirectories wait to be read, the first of them next, before
    /// whatever waited already.
    pub open spec fn answered(self, listing: Option<ListingView>) -> ScanView {
        if self.pending.len() == 0 {
            self
        } else {
            let dir = self.pending.last();
            let rest = self.pending.drop_last();
            match listing {
                None => ScanView { pending: rest, ..self },
                Some(l) => if self.ancestors().contains(l.identity) {
                    ScanView { pending: rest, chain: self.ancestors(), ..self }
                } else {
                    let chain = self.ancestors().push(l.identity);
                    ScanView {
                        pending: rest + listing_subdirs(
                            dir.path,
                            dir.is_system,
                            chain.len(),
                            l.entries,
                            self.platform,
                        ).reverse(),
                        chain,
                        found: self.found + listing_fonts(
                            dir.path,
                            dir.is_system,
                            l.entries,
                            self.platform,
                        ),
                        ..self
                    }
                },
            }
        }
    }

    /// What holds in every state of a scan: each font found is well formed
    /// and lies under a root with its tag, and each waiting directory is a
    /// root with its tag or lies under one.
    pub open spec fn consistent(self) -> bool {
        &&& forall|i: int|
            0 <= i < self.found.len() ==> (#[trigger] self.found[i]).well_formed(self.platform)
        &&& forall|i: int|
            0 <= i < self.found.len() ==> under_root(
                self.roots,
                (#[trigger] self.found[i]).path,
                self.found[i].is_system,
                self.platform,
            )
        &&& forall|i: int|
            0 <= i < self.pending.len() ==> within_root(
                self.roots,
                (#[trigger] self.pending[i]).path,
                self.pending[i].is_system,
                self.platform,
            )
    }
}

/// Every font of a listing is well formed and lies under the directory
/// listed, with the directory's tag.
proof fn lemma_listing_fonts(
    dir: Seq<char>,
    is_system: bool,
    entries: Seq<EntryView>,
    platform: Platform,
    i: int,
)
    requires
        0 <= i < listing_fonts(dir, is_system, entries, platform).len(),
    ensures
        listing_fonts(dir, is_system, entries, platform)[i].well_formed(platform),
        listing_fonts(dir, is_system, entries, platform)[i].is_system == is_system,
        lies_under(listing_fonts(dir, is_system, entries, platform)[i].path, dir, platform),
    decreases entries.len(),
{
    let f = listed_font(dir, is_system, platform);
    if entries.len() > 0 {
        let front = entries.drop_last();
        let fonts = front.filter_map(f);
        if i < fonts.len() {
            lemma_listing_fonts(dir, is_system, front, platform, i);
        } else {
            match entries.last() {
                EntryView::File { name } => {
                    lemma_joined_within(dir, name, platform);
                    lemma_extension_needs_name(joined(dir, name, platform), platform);
                    if name.len() == 0 {
                        assert(joined(dir, name, platform) =~= if dir.len() == 0
                            || platform.is_separator(dir.last()) {
                            dir
                        } else {
                            dir.push(platform.main_separator())
                        });
                    }
                },
                _ => {},
            }
        }
    }
}

/// Every subdirectory of a listing is within the directory listed, carries
/// its tag and has the depth given.
pub(crate) proof fn lemma_listing_subdirs(
    dir: Seq<char>,
    is_system: bool,
    depth: nat,
    entries: Seq<EntryView>,
    platform: Platform,
    i: int,
)
    requires
        0 <= i < listing_subdirs(dir, is_system, depth, entries, platform).len(),
    ensures
        listing_subdirs(dir, is_system, depth, entries, platform)[i].is_system == is_system,
        listing_subdirs(dir, is_system, depth, entries, platform)[i].depth == depth,
        within(listing_subdirs(dir, is_system, depth, entries, platform)[i].path, dir, platform),
    decreases entries.len(),
{
    let f = listed_subdir(dir, is_system, depth, platform);
    if entries.len() > 0 {
        let front = entries.drop_last();
        let dirs = front.filter_map(f);
        if i < dirs.len() {
            lemma_listing_subdirs(dir, is_system, depth, front, platform, i);
        } else {
            match entries.last() {
                EntryView::Directory { name } => {
                    lemma_joined_within(dir, name, platform);
                },
                _ => {},
            }
        }
    }
}

/// What lies under a directory that is within a root lies under that root.
proof fn lemma_under_root_extends(
    roots: Seq<RootView>,
    dir: Seq<char>,
    path: Seq<char>,
    is_system: bool,
    platform: Platform,
)
    requires
        within_root(roots, dir, is_system, platform),
        lies_under(path, dir, platform),
    ensures
        under_root(roots, path, is_system, platform),
{
    let k = choose|k: int|
        0 <= k < roots.len() && (#[trigger] roots[k]).is_system == is_system && within(
            dir,
            roots[k].path,
            platform,
        );
    lemma_lies_under_transitive(path, dir, roots[k].path, platform);
}

/// What is within a directory that is within a root is within that root.
proof fn lemma_within_root_extends(
    roots: Seq<RootView>,
    dir: Seq<char>,
    path: Seq<char>,
    is_system: bool,
    platform: Platform,
)
    requires
        within_root(roots, dir, is_system, platform),
        within(path, dir, platform),
    ensures
        within_root(roots, path, is_system, platform),
{
    if path != dir {
        lemma_under_root_extends(roots, dir, path, is_system, platform);
        let k = choose|k: int|
            0 <= k < roots.len() && (#[trigger] roots[k]).is_system == is_system && lies_under(
                path,
                roots[k].path,
                platform,
            );
        assert(within(path, roots[k].path, platform));
    }
}

/// Roots with different tags lie apart: none is another or lies under it.
pub open spec fn tags_lie_apart(roots: Seq<RootView>, platform: Platform) -> bool {
    forall|i: int, j: int|
        0 <= i < roots.len() && 0 <= j < roots.len() && (#[trigger] roots[i]).is_system != (
        #[trigger] roots[j]).is_system ==> !within(roots[i].path, roots[j].path, platform)
}

/// Where roots with different tags lie apart, the tag of a font says whether
/// the font lies under a root of the system: it is true for a font under a
/// system root, and false for every other.
pub proof fn lemma_system_tag(
    roots: Seq<RootView>,
    path: Seq<char>,
    is_system: bool,
    platform: Platform,
)
    requires
        tags_lie_apart(roots, platform),
        under_root(roots, path, is_system, platform),
    ensures
        is_system <==> under_root(roots, path, true, platform),
{
    if under_root(roots, path, true, platform) && !is_system {
        let s = choose|k: int|
            0 <= k < roots.len() && (#[trigger] roots[k]).is_system == true && lies_under(
                path,
                roots[k].path,
                platform,
            );
        let u = choose|k: int|
            0 <= k < roots.len() && (#[trigger] roots[k]).is_system == false && lies_under(
                path,
                roots[k].path,
                platform,
            );
        lemma_ancestors_nest(path, roots[s].path, roots[u].path, platform);
    }
}

/// A scan begins in a state in which the invariant holds.
pub proof fn lemma_started_invariant(platform: Platform, roots: Seq<RootView>)
    ensures
        ScanView::started(platform, roots).consistent(),
{
    let s = ScanView::started(platform, roots);
    assert forall|i: int| 0 <= i < s.pending.len() implies within_root(
        s.roots,
        (#[trigger] s.pending[i]).path,
        s.pending[i].is_system,
        platform,
    ) by {
        let k = roots.len() - 1 - i;
        assert(s.pending[i] == roots_pending(roots)[k]);
        assert(within(s.pending[i].path, roots[k].path, platform));
    }
}

/// An answer leads from a state in which the invariant holds to another.
pub proof fn lemma_answered_invariant(s: ScanView, listing: Option<ListingView>)
    requires
        s.consistent(),
    ensures
        s.answered(listing).consistent(),
{
    let t = s.answered(listing);
    if s.pending.len() > 0 {
        let dir = s.pending.last();
        let rest = s.pending.drop_last();
        assert(within_root(s.roots, dir.path, dir.is_system, s.platform));
        assert forall|i: int| 0 <= i < rest.len() implies within_root(
            s.roots,
            (#[trigger] rest[i]).path,
            rest[i].is_system,
            s.platform,
        ) by {
            assert(rest[i] == s.pending[i]);
        }
        match listing {
            None => {},
            Some(l) => {
                if !s.ancestors().contains(l.identity) {
                    let fonts = listing_fonts(dir.path, dir.is_system, l.entries, s.platform);
                    let depth = (s.ancestors().len() + 1) as nat;
                    let subdirs = listing_subdirs(
                        dir.path,
                        dir.is_system,
                        depth,
                        l.entries,
                        s.platform,
                    );
                    assert forall|i: int| 0 <= i < t.found.len() implies (#[trigger] t.found[i]).well_formed(
                        t.platform,
                    ) && under_root(t.roots, t.found[i].path, t.found[i].is_system, t.platform) by {
                        if i >= s.found.len() {
                            let j = i - s.found.len();
                            assert(t.found[i] == fonts[j]);
                            lemma_listing_fonts(dir.path, dir.is_system, l.entries, s.platform, j);
                            lemma_under_root_extends(
                                s.roots,
                                dir.path,
                                fonts[j].path,
                                dir.is_system,
                                s.platform,
                            );
                        } else {
                            assert(t.found[i] == s.found[i]);
                        }
                    }
                    assert forall|i: int| 0 <= i < t.pending.len() implies within_root(
                        t.roots,
                        (#[trigger] t.pending[i]).path,
                        t.pending[i].is_system,
                        t.platform,
                    ) by {
                        if i >= rest.len() {
                            let j = subdirs.len() - 1 - (i - rest.len());
                            assert(t.pending[i] == subdirs[j]);
                            lemma_listing_subdirs(
                                dir.path,
                                dir.is_system,
                                depth,
                                l.entries,
                                s.platform,
                                j,
                            );
                            lemma_within_root_extends(
                                s.roots,
                                dir.path,
                                subdirs[j].path,
                                dir.is_system,
                                s.platform,
                            );
                        } else {
                            assert(t.pending[i] == rest[i]);
                        }
                    }
                }
            },
        }
    }
}

/// Tells whether `text` is one of `texts`.
pub fn contains_text(texts: &Vec<String>, text: &String) -> (found: bool)
    ensures
        found == text_views(texts@).contains(text@),
{
    let mut i: usize = 0;
    while i < texts.len()
        invariant
            i <= texts.len(),
            forall|j: int| 0 <= j < i ==> text_views(texts@)[j] != text@,
        decreases texts.len() - i,
    {
        if texts[i] == *text {
            assert(text_views(texts@)[i as int] == text@);
            return true;
        }
        i += 1;
    }
    false
}

/// A font scan in progress.
pub struct FontScan {
    platform: Platform,
    roots: Vec<FontRoot>,
    pending: Vec<PendingDir>,
    chain: Vec<String>,
    found: Vec<FontInfo>,
}

impl View for FontScan {
    type V = ScanView;

    closed spec fn view(&self) -> ScanView {
        ScanView {
            platform: self.platform,
            roots: root_views(self.roots@),
            pending: pending_views(self.pending@),
            chain: text_views(self.chain@),
            found: font_views(self.found@),
        }
    }
}

impl FontScan {
    /// Every scan is in a consistent state.
    #[verifier::type_invariant]
    spec fn valid(&self) -> bool {
        self@.consistent()
    }

    /// Begins a scan of `roots`, which are read in their order.
    pub fn new(platform: Platform, roots: Vec<FontRoot>) -> (scan: FontScan)
        ensures
            scan@ == ScanView::started(platform, root_views(roots@)),
    {
        let ghost waiting = roots_pending(root_views(roots@));
        let mut pending: Vec<PendingDir> = Vec::new();
        let mut i: usize = roots.len();
        while i > 0
            invariant
                i <= roots.len(),
                waiting == roots_pending(root_views(roots@)),
                pending.len() == roots.len() - i,
                forall|j: int|
                    0 <= j < pending.len() ==> (#[trigger] pending[j])@ == waiting[roots.len() - 1
                        - j],
            decreases i,
        {
            i -= 1;
            let root = &roots[i];
            pending.push(PendingDir { path: root.path.clone(), is_system: root.is_system, depth: 0 });
        }
        proof {
            assert(pending_views(pending@) =~= waiting.reverse());
            lemma_started_invariant(platform, root_views(roots@));
        }
        let scan = FontScan { platform, roots, pending, chain: Vec::new(), found: Vec::new() };
        assert(scan@.chain =~= Seq::<Seq<char>>::empty());
        assert(scan@.found =~= Seq::<FontRecord>::empty());
        scan
    }

    /// The path of the directory that the scan wants read next, or nothing
    /// where the scan is finished.
    pub fn request(&self) -> (path: Option<String>)
        ensures
            match path {
                Some(p) => self@.request() == Some(p@),
                None => self@.request() is None,
            },
    {
        let n = self.pending.len();
        if n > 0 {
            Some(self.pending[n - 1].path.clone())
        } else {
            None
        }
    }

    /// Whether no directory is left to read.
    pub fn is_finished(&self) -> (done: bool)
        ensures
            done == self@.finished(),
    {
        self.pending.len() == 0
    }

    /// Takes the answer to the request: the listing of the directory, or
    /// nothing where the directory is absent or cannot be read. An answer to
    /// a finished scan changes nothing.
    pub fn answer(self, listing: Option<&DirListing>) -> (next: FontScan)
        ensures
            next@ == self@.answered(answer_view(listing)),
    {
        proof {
            use_type_invariant(&self);
            lemma_answered_invariant(self@, answer_view(listing));
        }
        let ghost before = self@;
        let ghost after = self@.answered(answer_view(listing));
        let FontScan { platform, roots, mut pending, mut chain, mut found } = self;
        let dir = match pending.pop() {
            Some(dir) => dir,
            None => {
                let next = FontScan { platform, roots, pending, chain, found };
                assert(next@ == after);
                return next;
            },
        };
        assert(pending_views(pending@) =~= before.pending.drop_last());
        assert(dir@ == before.pending.last());
        let listing = match listing {
            Some(listing) => listing,
            None => {
                let next = FontScan { platform, roots, pending, chain, found };
                assert(next@ == after);
                return next;
            },
        };
        chain.truncate(dir.depth);
        assert(text_views(chain@) =~= before.ancestors());
        if contains_text(&chain, &listing.identity) {
            let next = FontScan { platform, roots, pending, chain, found };
            assert(next@ == after);
            return next;
        }
        let entries = &listing.entries;
        let ghost listed = entries@.map_values(|e: DirEntry| e@);
        chain.push(listing.identity.clone());
        assert(text_views(chain@) =~= before.ancestors().push(listing.identity@));
        let depth = chain.len();
        let ghost font_of = listed_font(dir.path@, dir.is_system, platform);
        let ghost subdir_of = listed_subdir(dir.path@, dir.is_system, depth as nat, platform);
        let mut subdirs: Vec<PendingDir> = Vec::new();
        let mut i: usize = 0;
        assert(listed.take(0) =~= Seq::<EntryView>::empty());
        while i < entries.len()
            invariant
                i <= entries.len(),
                listed == entries@.map_values(|e: DirEntry| e@),
                font_of == listed_font(dir.path@, dir.is_system, platform),
                subdir_of == listed_subdir(dir.path@, dir.is_system, depth as nat, platform),
                font_views(found@) == before.found + listed.take(i as int).filter_map(font_of),
                pending_views(subdirs@) == listed.take(i as int).filter_map(subdir_of),
            decreases entries.len() - i,
        {
            proof {
                listed.lemma_filter_map_take_succ(font_of, i as int);
                listed.lemma_filter_map_take_succ(subdir_of, i as int);
                assert(listed[i as int] == entries[i as int]@);
            }
            let ghost found_before = found@;
            let ghost subdirs_before = subdirs@;
            match &entries[i] {
                DirEntry::File { name } => {
                    let path = join_path(dir.path.as_str(), name.as_str(), platform);
                    match process_font_entry(path.as_str(), dir.is_system, platform) {
                        Some(font) => {
                            found.push(font);
                            assert(font_views(found@) =~= font_views(found_before).push(font@));
                        },
                        None => {},
                    }
                },
                DirEntry::Directory { name } => {
                    if platform.recurses() {
                        let path = join_path(dir.path.as_str(), name.as_str(), platform);
                        let subdir = PendingDir { path, is_system: dir.is_system, depth };
                        subdirs.push(subdir);
                        assert(pending_views(subdirs@) =~= pending_views(subdirs_before).push(
                            subdir@,
                        ));
                    }
                },
                DirEntry::Unreadable => {},
            }
            i += 1;
        }
        assert(listed.take(listed.len() as int) =~= listed);
        let ghost all = pending_views(subdirs@);
        let ghost rest = pending_views(pending@);
        while subdirs.len() > 0
            invariant
                subdirs.len() <= all.len(),
                pending_views(subdirs@) == all.take(subdirs.len() as int),
                pending_views(pending@) == rest + all.skip(subdirs.len() as int).reverse(),
            decreases subdirs.len(),
        {
            let ghost m = subdirs.len() as int;
            let ghost pending_before = pending@;
            let ghost subdirs_before = subdirs@;
            let subdir = subdirs.pop().unwrap();
            assert(subdir@ == all[m - 1]) by {
                assert(pending_views(subdirs_before)[m - 1] == all.take(m)[m - 1]);
            }
            pending.push(subdir);
            assert(pending_views(pending@) =~= pending_views(pending_before).push(subdir@));
            assert(all.skip(m - 1).reverse() =~= all.skip(m).reverse().push(all[m - 1]));
            assert(pending_views(subdirs@) =~= all.take(m - 1));
        }
        assert(all.skip(0) =~= all);
        let next = FontScan { platform, roots, pending, chain, found };
        assert(next@ == after);
        next
    }

    /// Ends the scan and hands out the fonts found, in the order of the
    /// result: ascending by the lowercase form of the name, fonts with equal
    /// keys in the order in which they were found. Every font handed out
    /// names a font file, has the stem of its file name as its name, and lies
    /// under a root that carries its tag.
    pub fn finish(self) -> (fonts: Vec<FontInfo>)
        ensures
            sorted_listing(self@.found, font_views(fonts@)),
            fonts.len() == self@.found.len(),
            forall|i: int| 0 <= i < fonts.len() ==> self@.found.contains(#[trigger] fonts[i]@),
            forall|i: int| 0 <= i < fonts.len() ==> (#[trigger] fonts[i])@.well_formed(self@.platform),
            forall|i: int|
                0 <= i < fonts.len() ==> under_root(
                    self@.roots,
                    (#[trigger] fonts[i])@.path,
                    fonts[i]@.is_system,
                    self@.platform,
                ),
    {
        proof {
            use_type_invariant(&self);
        }
        let ghost before = self@;
        let fonts = sort_fonts(self.found);
        proof {
            assert forall|i: int| 0 <= i < fonts.len() implies (#[trigger] fonts[i])@.well_formed(
                before.platform,
            ) && under_root(before.roots, fonts[i]@.path, fonts[i]@.is_system, before.platform) by {
                assert(before.found.contains(fonts[i]@));
                let k = choose|k: int| 0 <= k < before.found.len() && before.found[k] == fonts[i]@;
                assert(before.found[k].well_formed(before.platform));
            }
            assert(font_views(self.found@).len() == self.found.len());
        }
        fonts
    }
}

} // verus!
