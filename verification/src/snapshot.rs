//! A font scan run from start to end against directories held in memory.
//! The run always ends: a directory that contains itself through a link is
//! not read again below itself.

use crate::font::{font_views, FontInfo};
use crate::platform::Platform;
use crate::roots::{font_roots, platform_roots, Environment, EnvironmentView, RootView};
use crate::scan::{
    answer_view, lemma_listing_subdirs, listing_subdirs, under_root, DirListing, EntryView,
    FontScan, ListingView, PendingView, ScanView,
};
use crate::sort::sorted_listing;
use vstd::prelude::*;
use vstd::string::*;

verus! {

/// A directory and what it holds.
#[derive(Clone, Debug, PartialEq, Eq)]
pub struct Directory {
    pub path: String,
    pub listing: DirListing,
}

/// A directory as a plain value.
pub struct DirectoryView {
    pub path: Seq<char>,
    pub listing: ListingView,
}

impl View for Directory {
    type V = DirectoryView;

    open spec fn view(&self) -> DirectoryView {
        DirectoryView { path: self.path@, listing: self.listing@ }
    }
}

/// The values of a sequence of directories.
pub open spec fn directory_views(disk: Seq<Directory>) -> Seq<DirectoryView> {
    disk.map_values(|d: Directory| d@)
}

/// The listing of the first directory of `disk` at `path`, or nothing where
/// `disk` holds none there.
pub open spec fn listing_at(disk: Seq<DirectoryView>, path: Seq<char>) -> Option<ListingView>
    decreases disk.len(),
{
    if disk.len() == 0 {
        None
    } else if disk[0].path == path {
        Some(disk[0].listing)
    } else {
        listing_at(disk.skip(1), path)
    }
}

/// One step of a scan of `disk`: the request is answered from `disk`.
pub open spec fn step(s: ScanView, disk: Seq<DirectoryView>) -> ScanView {
    match s.request() {
        Some(path) => s.answered(listing_at(disk, path)),
        None => s,
    }
}

/// The state after `n` steps of a scan of `disk`.
pub open spec fn after_steps(s: ScanView, disk: Seq<DirectoryView>, n: nat) -> ScanView
    decreases n,
{
    if n == 0 {
        s
    } else {
        step(after_steps(s, disk, (n - 1) as nat), disk)
    }
}

/// The number of entries that `disk` holds in all.
pub open spec fn total_entries(disk: Seq<DirectoryView>) -> nat
    decreases disk.len(),
{
    if disk.len() == 0 {
        0
    } else {
        total_entries(disk.drop_last()) + disk.last().listing.entries.len()
    }
}

/// `base` to the power of `exponent`.
pub open spec fn power(base: nat, exponent: nat) -> nat
    decreases exponent,
{
    if exponent == 0 {
        1
    } else {
        base * power(base, (exponent - 1) as nat)
    }
}

/// A bound on the steps that a waiting directory at `depth` can cause.
pub open spec fn weight(depth: nat, disk: Seq<DirectoryView>) -> nat {
    power(total_entries(disk) + 1, (disk.len() + 1 - depth) as nat)
}

/// A bound on the steps that the waiting directories can cause.
pub open spec fn pending_weight(pending: Seq<PendingView>, disk: Seq<DirectoryView>) -> nat
    decreases pending.len(),
{
    if pending.len() == 0 {
        0
    } else {
        pending_weight(pending.drop_last(), disk) + weight(pending.last().depth, disk)
    }
}

/// A number of steps after which a scan of `disk` from the state `s` has
/// ended.
pub open spec fn steps_bound(s: ScanView, disk: Seq<DirectoryView>) -> nat {
    pending_weight(s.pending, disk)
}

/// The state in which a scan of the font directories of `platform` ends,
/// where every request is answered from `disk`.
pub open spec fn scan_end(
    platform: Platform,
    env: EnvironmentView,
    disk: Seq<DirectoryView>,
) -> ScanView {
    let start = ScanView::started(platform, platform_roots(platform, env));
    after_steps(start, disk, steps_bound(start, disk))
}

/// Whether `identity` is the identity of a directory of `disk`.
pub open spec fn known_identity(disk: Seq<DirectoryView>, identity: Seq<char>) -> bool {
    exists|k: int| 0 <= k < disk.len() && (#[trigger] disk[k]).listing.identity == identity
}

/// What holds in every state of a scan of `disk`, and makes the scan end: no
/// identity stands twice on the way down from the root, each is that of a
/// directory of `disk`, and the waiting directories grow no shallower
/// towards the one that is read next, none deeper than the way is long.
pub open spec fn orderly(s: ScanView, disk: Seq<DirectoryView>) -> bool {
    &&& s.chain.no_duplicates()
    &&& forall|i: int| 0 <= i < s.chain.len() ==> known_identity(disk, #[trigger] s.chain[i])
    &&& forall|i: int, j: int|
        0 <= i < j < s.pending.len() ==> (#[trigger] s.pending[i]).depth <= (
        #[trigger] s.pending[j]).depth
    &&& forall|i: int| 0 <= i < s.pending.len() ==> (#[trigger] s.pending[i]).depth <= s.chain.len()
}

/// A listing that `disk` gives is the listing of one of its directories.
proof fn lemma_listing_at(disk: Seq<DirectoryView>, path: Seq<char>)
    ensures
        listing_at(disk, path) matches Some(l) ==> exists|k: int|
            0 <= k < disk.len() && (#[trigger] disk[k]).listing == l,
    decreases disk.len(),
{
    if disk.len() > 0 && disk[0].path != path {
        let rest = disk.skip(1);
        lemma_listing_at(rest, path);
        if let Some(l) = listing_at(rest, path) {
            let k = choose|k: int| 0 <= k < rest.len() && (#[trigger] rest[k]).listing == l;
            assert(disk[k + 1].listing == l);
        }
    }
}

/// No directory holds more entries than all directories together.
proof fn lemma_total_entries(disk: Seq<DirectoryView>, k: int)
    requires
        0 <= k < disk.len(),
    ensures
        disk[k].listing.entries.len() <= total_entries(disk),
    decreases disk.len(),
{
    if k < disk.len() - 1 {
        lemma_total_entries(disk.drop_last(), k);
    }
}

/// A power of a positive number is positive.
proof fn lemma_power_positive(base: nat, exponent: nat)
    requires
        base > 0,
    ensures
        power(base, exponent) > 0,
    decreases exponent,
{
    if exponent > 0 {
        lemma_power_positive(base, (exponent - 1) as nat);
        assert(base * power(base, (exponent - 1) as nat) > 0) by (nonlinear_arith)
            requires
                base > 0,
                power(base, (exponent - 1) as nat) > 0,
        ;
    }
}

/// The weight of directories that wait one behind the other is the sum of
/// their weights.
proof fn lemma_pending_weight_add(
    a: Seq<PendingView>,
    b: Seq<PendingView>,
    disk: Seq<DirectoryView>,
)
    ensures
        pending_weight(a + b, disk) == pending_weight(a, disk) + pending_weight(b, disk),
    decreases b.len(),
{
    if b.len() == 0 {
        assert(a + b =~= a);
    } else {
        lemma_pending_weight_add(a, b.drop_last(), disk);
        assert((a + b).drop_last() =~= a + b.drop_last());
    }
}

/// Directories that all wait at one depth weigh their number times the
/// weight of that depth.
proof fn lemma_pending_weight_level(
    pending: Seq<PendingView>,
    depth: nat,
    disk: Seq<DirectoryView>,
)
    requires
        forall|i: int| 0 <= i < pending.len() ==> (#[trigger] pending[i]).depth == depth,
    ensures
        pending_weight(pending, disk) == pending.len() * weight(depth, disk),
    decreases pending.len(),
{
    if pending.len() > 0 {
        let front = pending.drop_last();
        assert forall|i: int| 0 <= i < front.len() implies (#[trigger] front[i]).depth == depth by {
            assert(front[i] == pending[i]);
        }
        lemma_pending_weight_level(front, depth, disk);
        assert(front.len() * weight(depth, disk) + weight(depth, disk) == pending.len() * weight(
            depth,
            disk,
        )) by (nonlinear_arith)
            requires
                front.len() + 1 == pending.len(),
        ;
    }
}

/// A way down on which no identity stands twice is no longer than `disk`
/// has directories.
proof fn lemma_chain_bounded(chain: Seq<Seq<char>>, disk: Seq<DirectoryView>)
    requires
        chain.no_duplicates(),
        forall|i: int| 0 <= i < chain.len() ==> known_identity(disk, #[trigger] chain[i]),
    ensures
        chain.len() <= disk.len(),
{
    let identities = disk.map_values(|d: DirectoryView| d.listing.identity);
    chain.unique_seq_to_set();
    identities.lemma_cardinality_of_set();
    vstd::seq_lib::seq_to_set_is_finite(identities);
    assert(chain.to_set().subset_of(identities.to_set())) by {
        assert forall|id: Seq<char>| chain.to_set().contains(id) implies identities.to_set().contains(
            id,
        ) by {
            let i = choose|i: int| 0 <= i < chain.len() && chain[i] == id;
            let k = choose|k: int|
                0 <= k < disk.len() && (#[trigger] disk[k]).listing.identity == chain[i];
            assert(identities[k] == id);
        }
    }
    vstd::set_lib::lemma_len_subset(chain.to_set(), identities.to_set());
}

/// The subdirectories of a listing are no more than its entries.
proof fn lemma_subdirs_count(
    dir: Seq<char>,
    is_system: bool,
    depth: nat,
    entries: Seq<EntryView>,
    platform: Platform,
)
    ensures
        listing_subdirs(dir, is_system, depth, entries, platform).len() <= entries.len(),
    decreases entries.len(),
{
    if entries.len() > 0 {
        lemma_subdirs_count(dir, is_system, depth, entries.drop_last(), platform);
    }
}

/// A step of a scan of `disk` leads from an orderly state to an orderly
/// state, and to a smaller bound unless the scan has ended.
pub proof fn lemma_step(s: ScanView, disk: Seq<DirectoryView>)
    requires
        orderly(s, disk),
    ensures
        orderly(step(s, disk), disk),
        !s.finished() ==> steps_bound(step(s, disk), disk) < steps_bound(s, disk),
        s.finished() ==> step(s, disk) == s,
{
    if s.pending.len() > 0 {
        let t = step(s, disk);
        let dir = s.pending.last();
        let rest = s.pending.drop_last();
        let listing = listing_at(disk, dir.path);
        let base = total_entries(disk) + 1;
        lemma_chain_bounded(s.chain, disk);
        lemma_power_positive(base, (disk.len() + 1 - dir.depth) as nat);
        assert(s.ancestors() =~= s.chain.take(dir.depth as int));
        assert forall|i: int| 0 <= i < rest.len() implies (#[trigger] rest[i]).depth
            <= dir.depth by {
            assert(rest[i] == s.pending[i]);
        }
        match listing {
            None => {},
            Some(l) => {
                lemma_listing_at(disk, dir.path);
                let ancestors = s.ancestors();
                if !ancestors.contains(l.identity) {
                    let chain = ancestors.push(l.identity);
                    let subdirs = listing_subdirs(
                        dir.path,
                        dir.is_system,
                        chain.len(),
                        l.entries,
                        s.platform,
                    );
                    let waiting = subdirs.reverse();
                    assert(t.pending == rest + waiting);
                    assert(chain.no_duplicates());
                    assert forall|i: int| 0 <= i < chain.len() implies known_identity(
                        disk,
                        #[trigger] chain[i],
                    ) by {
                        if i < ancestors.len() {
                            assert(chain[i] == s.chain[i]);
                        }
                    }
                    assert forall|i: int| 0 <= i < waiting.len() implies (#[trigger] waiting[i]).depth
                        == chain.len() by {
                        lemma_listing_subdirs(
                            dir.path,
                            dir.is_system,
                            chain.len(),
                            l.entries,
                            s.platform,
                            subdirs.len() - 1 - i,
                        );
                    }
                    assert forall|i: int| 0 <= i < t.pending.len() implies (
                    #[trigger] t.pending[i]).depth <= t.chain.len() by {
                        if i < rest.len() {
                            assert(t.pending[i] == rest[i]);
                        } else {
                            assert(t.pending[i] == waiting[i - rest.len()]);
                        }
                    }
                    assert forall|i: int, j: int| 0 <= i < j < t.pending.len() implies (
                    #[trigger] t.pending[i]).depth <= (#[trigger] t.pending[j]).depth by {
                        if j < rest.len() {
                            assert(t.pending[i] == s.pending[i]);
                            assert(t.pending[j] == s.pending[j]);
                        } else {
                            assert(t.pending[j] == waiting[j - rest.len()]);
                            if i < rest.len() {
                                assert(t.pending[i] == rest[i]);
                            } else {
                                assert(t.pending[i] == waiting[i - rest.len()]);
                            }
                        }
                    }
                    // The bound goes down: fewer subdirectories wait than the
                    // base of the weights, each at one level further down.
                    lemma_chain_bounded(chain, disk);
                    lemma_pending_weight_add(rest, waiting, disk);
                    lemma_pending_weight_level(waiting, chain.len(), disk);
                    lemma_subdirs_count(
                        dir.path,
                        dir.is_system,
                        chain.len(),
                        l.entries,
                        s.platform,
                    );
                    let k = choose|k: int| 0 <= k < disk.len() && (#[trigger] disk[k]).listing == l;
                    lemma_total_entries(disk, k);
                    let lower = power(base, (disk.len() - dir.depth) as nat);
                    lemma_power_positive(base, (disk.len() - dir.depth) as nat);
                    assert(weight(chain.len(), disk) == lower);
                    assert(weight(dir.depth, disk) == base * lower);
                    assert(waiting.len() * lower < base * lower) by (nonlinear_arith)
                        requires
                            waiting.len() < base,
                            lower > 0,
                    ;
                } else {
                    assert forall|i: int| 0 <= i < t.chain.len() implies known_identity(
                        disk,
                        #[trigger] t.chain[i],
                    ) by {
                        assert(t.chain[i] == s.chain[i]);
                    }
                    assert forall|i: int, j: int| 0 <= i < j < rest.len() implies (
                    #[trigger] rest[i]).depth <= (#[trigger] rest[j]).depth by {
                        assert(rest[i] == s.pending[i]);
                        assert(rest[j] == s.pending[j]);
                    }
                }
            },
        }
        if listing is None {
            assert forall|i: int, j: int| 0 <= i < j < rest.len() implies (#[trigger] rest[i]).depth
                <= (#[trigger] rest[j]).depth by {
                assert(rest[i] == s.pending[i]);
                assert(rest[j] == s.pending[j]);
            }
        }
    }
}

/// A scan begins in an orderly state.
pub proof fn lemma_started_orderly(
    platform: Platform,
    roots: Seq<RootView>,
    disk: Seq<DirectoryView>,
)
    ensures
        orderly(ScanView::started(platform, roots), disk),
{
}

/// Once a scan has ended, further steps change nothing.
pub proof fn lemma_ended_stays(s: ScanView, disk: Seq<DirectoryView>, n: nat, m: nat)
    requires
        after_steps(s, disk, n).finished(),
        n <= m,
    ensures
        after_steps(s, disk, m) == after_steps(s, disk, n),
    decreases m,
{
    if m > n {
        lemma_ended_stays(s, disk, n, (m - 1) as nat);
    }
}

/// Every scan of directories held in memory ends: after as many steps as the
/// bound of its first state says, no directory waits.
pub proof fn lemma_scan_ends(s: ScanView, disk: Seq<DirectoryView>)
    requires
        orderly(s, disk),
    ensures
        after_steps(s, disk, steps_bound(s, disk)).finished(),
{
    let n = steps_bound(s, disk);
    lemma_scan_progress(s, disk, n);
    let last = after_steps(s, disk, n);
    if !last.finished() {
        lemma_power_positive(
            total_entries(disk) + 1,
            (disk.len() + 1 - last.pending.last().depth) as nat,
        );
    }
}

/// After `n` steps of a scan the state is orderly, and either the scan has
/// ended or the bound is lower by `n` at least.
proof fn lemma_scan_progress(s: ScanView, disk: Seq<DirectoryView>, n: nat)
    requires
        orderly(s, disk),
    ensures
        orderly(after_steps(s, disk, n), disk),
        after_steps(s, disk, n).finished() || steps_bound(after_steps(s, disk, n), disk) + n
            <= steps_bound(s, disk),
    decreases n,
{
    if n > 0 {
        lemma_scan_progress(s, disk, (n - 1) as nat);
        lemma_step(after_steps(s, disk, (n - 1) as nat), disk);
    }
}

/// Where `disk` holds none of the roots, the scan asks for each root once, in
/// their order, and ends having found nothing.
pub proof fn lemma_absent_roots(
    platform: Platform,
    roots: Seq<RootView>,
    disk: Seq<DirectoryView>,
)
    requires
        forall|k: int| 0 <= k < roots.len() ==> listing_at(disk, (#[trigger] roots[k]).path) is None,
    ensures
        forall|n: nat|
            n < roots.len() ==> (#[trigger] after_steps(
                ScanView::started(platform, roots),
                disk,
                n,
            )).request() == Some(roots[n as int].path),
        after_steps(ScanView::started(platform, roots), disk, roots.len()).finished(),
        after_steps(
            ScanView::started(platform, roots),
            disk,
            steps_bound(ScanView::started(platform, roots), disk),
        ).found.len() == 0,
{
    let start = ScanView::started(platform, roots);
    let bound = steps_bound(start, disk);
    assert forall|n: nat| n < roots.len() implies (#[trigger] after_steps(start, disk, n)).request()
        == Some(roots[n as int].path) by {
        lemma_absent_roots_steps(platform, roots, disk, n);
    }
    lemma_absent_roots_steps(platform, roots, disk, roots.len());
    lemma_started_orderly(platform, roots, disk);
    lemma_scan_ends(start, disk);
    if bound >= roots.len() {
        lemma_ended_stays(start, disk, roots.len(), bound);
    } else {
        lemma_ended_stays(start, disk, bound, roots.len());
    }
}

/// While `disk` holds none of the roots, each step takes one root from the
/// waiting directories and finds nothing.
proof fn lemma_absent_roots_steps(
    platform: Platform,
    roots: Seq<RootView>,
    disk: Seq<DirectoryView>,
    n: nat,
)
    requires
        forall|k: int| 0 <= k < roots.len() ==> listing_at(disk, (#[trigger] roots[k]).path) is None,
        n <= roots.len(),
    ensures
        after_steps(ScanView::started(platform, roots), disk, n).found.len() == 0,
        after_steps(ScanView::started(platform, roots), disk, n).pending == ScanView::started(
            platform,
            roots,
        ).pending.take(roots.len() - n),
    decreases n,
{
    let start = ScanView::started(platform, roots);
    if n == 0 {
        assert(start.pending.take(roots.len() as int) =~= start.pending);
    } else {
        lemma_absent_roots_steps(platform, roots, disk, (n - 1) as nat);
        let s = after_steps(start, disk, (n - 1) as nat);
        assert(s.pending.last() == start.pending[roots.len() - n]);
        assert(s.pending.last().path == roots[n - 1].path);
        assert(s.pending.drop_last() =~= start.pending.take(roots.len() - n));
    }
}

/// Looks up the listing of the first directory at `path`.
pub fn find_listing<'a>(disk: &'a Vec<Directory>, path: &String) -> (listing: Option<
    &'a DirListing,
>)
    ensures
        answer_view(listing) == listing_at(directory_views(disk@), path@),
{
    let ghost all = directory_views(disk@);
    let mut i: usize = 0;
    assert(all.skip(0) =~= all);
    while i < disk.len()
        invariant
            i <= disk.len(),
            all == directory_views(disk@),
            listing_at(all, path@) == listing_at(all.skip(i as int), path@),
        decreases disk.len() - i,
    {
        assert(all.skip(i as int)[0] == disk[i as int]@);
        if disk[i].path == *path {
            return Some(&disk[i].listing);
        }
        assert(all.skip(i as int).skip(1) =~= all.skip(i + 1));
        i += 1;
    }
    None
}

/// Scans the font directories of `platform` as `disk` holds them, and gives
/// the fonts in the order of a scan's result.
///
/// The fonts are those that are found when every request of the scan is
/// answered from `disk`, until no directory waits; that the scan gets there
/// is proved, whatever links `disk` holds. Every font names a font file, is
/// named by the stem of its file name, and lies under a root that carries
/// its tag; the fonts are sorted by the lowercase form of the name, fonts
/// with equal keys in the order in which they were found.
pub fn get_system_fonts(platform: Platform, env: &Environment, disk: &Vec<Directory>) -> (fonts:
    Vec<FontInfo>)
    ensures
        scan_end(platform, env@, directory_views(disk@)).finished(),
        sorted_listing(
            scan_end(platform, env@, directory_views(disk@)).found,
            font_views(fonts@),
        ),
        fonts.len() == scan_end(platform, env@, directory_views(disk@)).found.len(),
        forall|i: int| 0 <= i < fonts.len() ==> (#[trigger] fonts[i])@.well_formed(platform),
        forall|i: int|
            0 <= i < fonts.len() ==> under_root(
                platform_roots(platform, env@),
                (#[trigger] fonts[i])@.path,
                fonts[i]@.is_system,
                platform,
            ),
{
    let roots = font_roots(platform, env);
    let mut scan = FontScan::new(platform, roots);
    let ghost all = directory_views(disk@);
    let ghost start = scan@;
    let ghost mut steps: nat = 0;
    proof {
        lemma_started_orderly(platform, platform_roots(platform, env@), all);
    }
    while !scan.is_finished()
        invariant
            all == directory_views(disk@),
            scan@ == after_steps(start, all, steps),
            orderly(scan@, all),
            steps + steps_bound(scan@, all) <= steps_bound(start, all),
            scan@.roots == start.roots,
            scan@.platform == start.platform,
        decreases steps_bound(scan@, all),
    {
        proof {
            lemma_step(scan@, all);
        }
        let listing = match scan.request() {
            Some(path) => find_listing(disk, &path),
            None => None,
        };
        scan = scan.answer(listing);
        proof {
            steps = steps + 1;
        }
    }
    proof {
        lemma_ended_stays(start, all, steps, steps_bound(start, all));
    }
    scan.finish()
}

} // verus!
