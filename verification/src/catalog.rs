//! The catalog: which bundles a directory holds, newest first.
//!
//! A listing is made afresh from every scan of the directory; nothing is
//! kept between requests.

use vstd::prelude::*;
use vstd::string::*;
use crate::bundle::{admit_file, admit_of, Bundle, BundleView, Meta};

verus! {

/// One entry of the base directory, as a scan reports it.
#[derive(Clone, Debug, PartialEq, Eq)]
pub struct DirEntry {
    /// File name of the entry.
    pub name: String,
    /// What the file system told about it; `None` where that failed.
    pub meta: Option<Meta>,
}

/// The mathematical value of a [`DirEntry`].
pub struct DirEntryView {
    pub name: Seq<char>,
    pub meta: Option<Meta>,
}

impl View for DirEntry {
    type V = DirEntryView;

    open spec fn view(&self) -> DirEntryView {
        DirEntryView { name: self.name@, meta: self.meta }
    }
}

/// The values of the entries of a scan.
pub open spec fn entry_views(entries: Seq<DirEntry>) -> Seq<DirEntryView> {
    entries.map_values(|e: DirEntry| e@)
}

/// The values of the bundles of a listing.
pub open spec fn bundle_views(list: Seq<Bundle>) -> Seq<BundleView> {
    list.map_values(|b: Bundle| b@)
}

/// Whether entry `i` of a scan is a bundle: its name is on the allowlist
/// and its metadata could be read.
pub open spec fn qualifies(entries: Seq<DirEntryView>, i: int) -> bool {
    admit_of(entries[i].name, entries[i].meta) is Ok
}

/// The bundle that entry `i` of a scan stands for, if it qualifies.
pub open spec fn bundle_at(entries: Seq<DirEntryView>, i: int) -> BundleView {
    admit_of(entries[i].name, entries[i].meta)->Ok_0
}

/// Whether entry `i` is listed before entry `j`: it is newer, or as old and
/// later in the scan.
pub open spec fn precedes(entries: Seq<DirEntryView>, i: int, j: int) -> bool {
    let a = bundle_at(entries, i).modified;
    let b = bundle_at(entries, j).modified;
    a > b || (a == b && i > j)
}

/// Whether `order` lists the qualifying entries among the first `n` of a
/// scan, each once, so that every one precedes those behind it.
pub open spec fn is_order_of_first(entries: Seq<DirEntryView>, n: int, order: Seq<int>) -> bool {
    &&& 0 <= n <= entries.len()
    &&& order.len() <= n
    &&& forall|k: int|
        0 <= k < order.len() ==> 0 <= #[trigger] order[k] < n && qualifies(entries, order[k])
    &&& forall|i: int| 0 <= i < n && #[trigger] qualifies(entries, i) ==> order.contains(i)
    &&& forall|k: int, l: int|
        #![trigger order[k], order[l]]
        0 <= k < l < order.len() ==> precedes(entries, order[k], order[l])
}

/// Whether `order` lists the qualifying entries of a whole scan, newest
/// first.
pub open spec fn is_order(entries: Seq<DirEntryView>, order: Seq<int>) -> bool {
    is_order_of_first(entries, entries.len() as int, order)
}

/// The order in which the entries of a scan are listed: the indices of the
/// qualifying entries, newest first, and among equally old ones the later
/// entry first.
pub open spec fn order_of(entries: Seq<DirEntryView>) -> Seq<int> {
    choose|order: Seq<int>| is_order(entries, order)
}

/// The listing of a scan: its bundles, newest first.
pub open spec fn listing(entries: Seq<DirEntryView>) -> Seq<BundleView> {
    order_of(entries).map_values(|i: int| bundle_at(entries, i))
}

/// The newest bundle of a scan, if it has any: the head of its listing.
pub open spec fn latest(entries: Seq<DirEntryView>) -> Option<BundleView> {
    if listing(entries).len() == 0 {
        None
    } else {
        Some(listing(entries)[0])
    }
}

/// Where a bundle modified at `stamp` goes in a listing in `order`: before
/// the first entry that is not newer than it.
spec fn slot(entries: Seq<DirEntryView>, order: Seq<int>, stamp: int, from: int) -> int
    decreases order.len() - from,
{
    if from < 0 || from >= order.len() {
        order.len() as int
    } else if bundle_at(entries, order[from]).modified <= stamp {
        from
    } else {
        slot(entries, order, stamp, from + 1)
    }
}

proof fn lemma_slot(entries: Seq<DirEntryView>, order: Seq<int>, stamp: int, from: int)
    requires
        0 <= from <= order.len(),
    ensures
        from <= slot(entries, order, stamp, from) <= order.len(),
        forall|k: int|
            from <= k < slot(entries, order, stamp, from) ==> bundle_at(
                entries,
                #[trigger] order[k],
            ).modified > stamp,
        slot(entries, order, stamp, from) < order.len() ==> bundle_at(
            entries,
            order[slot(entries, order, stamp, from)],
        ).modified <= stamp,
    decreases order.len() - from,
{
    if from < order.len() && bundle_at(entries, order[from]).modified > stamp {
        lemma_slot(entries, order, stamp, from + 1);
    }
}

/// Entry `n`, put into its slot, extends an order of the first `n` entries
/// to one of the first `n + 1`.
proof fn lemma_insert(entries: Seq<DirEntryView>, n: int, order: Seq<int>, p: int)
    requires
        is_order_of_first(entries, n, order),
        n < entries.len(),
        qualifies(entries, n),
        0 <= p <= order.len(),
        forall|k: int|
            0 <= k < p ==> bundle_at(entries, #[trigger] order[k]).modified > bundle_at(
                entries,
                n,
            ).modified,
        p < order.len() ==> bundle_at(entries, order[p]).modified <= bundle_at(
            entries,
            n,
        ).modified,
    ensures
        is_order_of_first(entries, n + 1, order.insert(p, n)),
{
    let next = order.insert(p, n);
    assert(next.len() == order.len() + 1);
    assert(forall|k: int| 0 <= k < p ==> next[k] == order[k]);
    assert(next[p] == n);
    assert(forall|k: int| p < k < next.len() ==> next[k] == order[k - 1]);
    assert forall|i: int| 0 <= i < n + 1 && #[trigger] qualifies(entries, i) implies next.contains(
        i,
    ) by {
        if i == n {
            assert(next[p] == i);
        } else {
            let k = choose|k: int| 0 <= k < order.len() && order[k] == i;
            if k < p {
                assert(next[k] == i);
            } else {
                assert(next[k + 1] == i);
            }
        }
    }
    assert forall|k: int, l: int| 0 <= k < l < next.len() implies precedes(
        entries,
        #[trigger] next[k],
        #[trigger] next[l],
    ) by {
        if l < p {
            assert(precedes(entries, order[k], order[l]));
        } else if l == p {
            assert(next[k] == order[k]);
        } else if k < p {
            assert(precedes(entries, order[k], order[l - 1]));
        } else if k == p {
            if p < l - 1 {
                assert(precedes(entries, order[p], order[l - 1]));
            }
            assert(order[l - 1] < n);
        } else {
            assert(precedes(entries, order[k - 1], order[l - 1]));
        }
    }
}

/// Every scan has an order.
pub proof fn lemma_order_exists(entries: Seq<DirEntryView>)
    ensures
        is_order(entries, order_of(entries)),
{
    let n = entries.len() as int;
    lemma_order_of_first_exists(entries, n);
    let order = choose|order: Seq<int>| is_order_of_first(entries, n, order);
    assert(is_order(entries, order));
}

proof fn lemma_order_of_first_exists(entries: Seq<DirEntryView>, n: int)
    requires
        0 <= n <= entries.len(),
    ensures
        exists|order: Seq<int>| is_order_of_first(entries, n, order),
    decreases n,
{
    if n == 0 {
        assert(is_order_of_first(entries, 0, Seq::<int>::empty()));
    } else {
        let m = n - 1;
        lemma_order_of_first_exists(entries, m);
        let order = choose|order: Seq<int>| is_order_of_first(entries, m, order);
        if qualifies(entries, m) {
            let stamp = bundle_at(entries, m).modified;
            lemma_slot(entries, order, stamp, 0);
            let p = slot(entries, order, stamp, 0);
            lemma_insert(entries, m, order, p);
            assert(is_order_of_first(entries, n, order.insert(p, m)));
        } else {
            assert(is_order_of_first(entries, n, order));
        }
    }
}

proof fn lemma_orders_agree(entries: Seq<DirEntryView>, a: Seq<int>, b: Seq<int>, n: int)
    requires
        is_order(entries, a),
        is_order(entries, b),
        0 <= n <= a.len(),
        n <= b.len(),
    ensures
        forall|k: int| 0 <= k < n ==> a[k] == b[k],
    decreases n,
{
    if n > 0 {
        lemma_orders_agree(entries, a, b, n - 1);
        let k = n - 1;
        assert(qualifies(entries, a[k]));
        assert(qualifies(entries, b[k]));
        let m = choose|m: int| 0 <= m < b.len() && b[m] == a[k];
        let w = choose|w: int| 0 <= w < a.len() && a[w] == b[k];
        if m < k {
            assert(precedes(entries, a[m], a[k]));
        }
        if w < k {
            assert(precedes(entries, b[w], b[k]));
        }
        if m > k && w > k {
            assert(precedes(entries, b[k], b[m]));
            assert(precedes(entries, a[k], a[w]));
        }
    }
}

/// A scan has one order only: the rule leaves nothing open, not even among
/// bundles of the same age.
pub proof fn lemma_order_unique(entries: Seq<DirEntryView>, a: Seq<int>, b: Seq<int>)
    requires
        is_order(entries, a),
        is_order(entries, b),
    ensures
        a == b,
{
    if a.len() <= b.len() {
        lemma_orders_agree(entries, a, b, a.len() as int);
        if a.len() < b.len() {
            let extra = b[a.len() as int];
            assert(qualifies(entries, extra));
            let w = choose|w: int| 0 <= w < a.len() && a[w] == extra;
            assert(precedes(entries, b[w], b[a.len() as int]));
        }
    } else {
        lemma_orders_agree(entries, a, b, b.len() as int);
        let extra = a[b.len() as int];
        assert(qualifies(entries, extra));
        let m = choose|m: int| 0 <= m < b.len() && b[m] == extra;
        assert(precedes(entries, a[m], a[b.len() as int]));
    }
    assert(a =~= b);
}

/// A listing runs from the newest bundle to the oldest. It holds every
/// entry that qualifies and nothing else, so it is no longer than the scan.
/// There is a newest bundle exactly if some entry qualifies, and no bundle
/// of the scan is newer than it.
pub proof fn lemma_listing(entries: Seq<DirEntryView>)
    ensures
        forall|k: int, l: int|
            0 <= k <= l < listing(entries).len() ==> listing(entries)[k].modified >= listing(
                entries,
            )[l].modified,
        forall|i: int|
            0 <= i < entries.len() && qualifies(entries, i) ==> listing(entries).contains(
                bundle_at(entries, i),
            ),
        forall|k: int|
            0 <= k < listing(entries).len() ==> exists|i: int|
                0 <= i < entries.len() && qualifies(entries, i) && #[trigger] listing(entries)[k]
                    == bundle_at(entries, i),
        listing(entries).len() <= entries.len(),
        latest(entries) is None <==> forall|i: int|
            0 <= i < entries.len() ==> !qualifies(entries, i),
        forall|i: int|
            0 <= i < entries.len() && qualifies(entries, i) ==> latest(entries) is Some && latest(
                entries,
            )->Some_0.modified >= bundle_at(entries, i).modified,
{
    lemma_order_exists(entries);
    let order = order_of(entries);
    let list = listing(entries);
    assert forall|k: int, l: int| 0 <= k <= l < list.len() implies list[k].modified
        >= list[l].modified by {
        if k < l {
            assert(precedes(entries, order[k], order[l]));
        }
    }
    assert forall|i: int| 0 <= i < entries.len() && qualifies(entries, i) implies list.contains(
        bundle_at(entries, i),
    ) && latest(entries) is Some && latest(entries)->Some_0.modified >= bundle_at(
        entries,
        i,
    ).modified by {
        let k = choose|k: int| 0 <= k < order.len() && order[k] == i;
        assert(list[k] == bundle_at(entries, i));
        if 0 < k {
            assert(precedes(entries, order[0], order[k]));
        }
    }
    assert forall|k: int| 0 <= k < list.len() implies exists|i: int|
        0 <= i < entries.len() && qualifies(entries, i) && #[trigger] list[k] == bundle_at(
            entries,
            i,
        ) by {
        let i = order[k];
        assert(qualifies(entries, i) && list[k] == bundle_at(entries, i));
    }
    if list.len() > 0 {
        assert(qualifies(entries, order[0]));
    }
}

/// Index at which a bundle modified at `stamp` enters `list`.
fn slot_for(list: &Vec<Bundle>, stamp: i128) -> (p: usize)
    ensures
        p <= list.len(),
        forall|k: int| 0 <= k < p ==> (#[trigger] list@[k]).modified > stamp,
        p < list.len() ==> list@[p as int].modified <= stamp,
{
    let mut p: usize = 0;
    while p < list.len() && list[p].modified > stamp
        invariant
            p <= list.len(),
            forall|k: int| 0 <= k < p ==> (#[trigger] list@[k]).modified > stamp,
        decreases list.len() - p,
    {
        p += 1;
    }
    p
}

/// Lists the bundles among the entries of one scan of the base directory,
/// newest first.
///
/// Entries whose name is not on the allowlist, or whose metadata could not
/// be read, are left out. Bundles of the same age come in the reverse of
/// the order in which the scan reported them.
pub fn list_bundles(entries: &Vec<DirEntry>) -> (list: Vec<Bundle>)
    ensures
        bundle_views(list@) == listing(entry_views(entries@)),
        list.len() <= entries.len(),
        forall|k: int, l: int|
            0 <= k <= l < list.len() ==> list@[k].modified >= list@[l].modified,
{
    let ghost views = entry_views(entries@);
    let ghost mut order: Seq<int> = Seq::empty();
    let mut list: Vec<Bundle> = Vec::new();
    let mut i: usize = 0;
    while i < entries.len()
        invariant
            i <= entries.len(),
            views == entry_views(entries@),
            is_order_of_first(views, i as int, order),
            order.len() == list.len(),
            forall|k: int|
                0 <= k < list.len() ==> (#[trigger] list@[k])@ == bundle_at(views, order[k]),
        decreases entries.len() - i,
    {
        let entry = &entries[i];
        assert(views[i as int] == entry@);
        match admit_file(entry.name.as_str(), entry.meta) {
            Ok(bundle) => {
                let p = slot_for(&list, bundle.modified);
                proof {
                    assert(bundle@ == bundle_at(views, i as int));
                    assert forall|k: int| 0 <= k < p implies bundle_at(
                        views,
                        #[trigger] order[k],
                    ).modified > bundle_at(views, i as int).modified by {
                        assert(list@[k]@ == bundle_at(views, order[k]));
                    }
                    if p < list.len() {
                        assert(list@[p as int]@ == bundle_at(views, order[p as int]));
                    }
                    lemma_insert(views, i as int, order, p as int);
                }
                let ghost before = list@;
                let ghost old_order = order;
                list.insert(p, bundle);
                proof {
                    order = order.insert(p as int, i as int);
                    assert forall|k: int| 0 <= k < list.len() implies (#[trigger] list@[k])@
                        == bundle_at(views, order[k]) by {
                        if k < p {
                            assert(list@[k] == before[k]);
                            assert(order[k] == old_order[k]);
                        } else if k > p {
                            assert(list@[k] == before[k - 1]);
                            assert(order[k] == old_order[k - 1]);
                        }
                    }
                }
            },
            Err(_) => {
                assert(!qualifies(views, i as int));
            },
        }
        i += 1;
    }
    proof {
        lemma_order_exists(views);
        lemma_order_unique(views, order, order_of(views));
        assert(bundle_views(list@) =~= listing(views));
        lemma_listing(views);
        assert forall|k: int, l: int| 0 <= k <= l < list.len() implies list@[k].modified
            >= list@[l].modified by {
            assert(list@[k]@ == listing(views)[k]);
            assert(list@[l]@ == listing(views)[l]);
        }
    }
    list
}

/// The newest bundle among the entries of one scan, or `None` if the scan
/// holds no bundle.
pub fn newest_bundle(entries: &Vec<DirEntry>) -> (newest: Option<Bundle>)
    ensures
        match newest {
            Some(bundle) => latest(entry_views(entries@)) == Some(bundle@),
            None => latest(entry_views(entries@)) is None,
        },
{
    let mut list = list_bundles(entries);
    if list.len() == 0 {
        None
    } else {
        let ghost all = list@;
        let first = list.remove(0);
        assert(first == all[0]);
        assert(bundle_views(all)[0] == all[0]@);
        Some(first)
    }
}

} // verus!
