use vstd::prelude::*;
use vstd::string::*;
use crate::package::{PackageDb, PackageReason, PackageRecord, has_name, index_named, named, unique_names};
use crate::text::views;

verus! {

/// Which install reasons a listing keeps.
#[derive(Debug, Clone, Copy, PartialEq, Eq, Structural)]
pub enum ReasonSelector {
    Both,
    Explicit,
    Depend,
}

/// The selector that the two flags ask for: one reason where exactly one flag
/// is set, no restriction otherwise.
pub open spec fn selector_for(explicit: bool, dependency: bool) -> ReasonSelector {
    if explicit && !dependency {
        ReasonSelector::Explicit
    } else if !explicit && dependency {
        ReasonSelector::Depend
    } else {
        ReasonSelector::Both
    }
}

/// `sel` keeps something whose reason is explicit exactly when `explicit` holds.
pub open spec fn passes(sel: ReasonSelector, explicit: bool) -> bool {
    sel == ReasonSelector::Both || (sel == ReasonSelector::Explicit) == explicit
}

pub open spec fn is_explicit_reason(reason: PackageReason) -> bool {
    reason == PackageReason::Explicit
}

pub open spec fn filtered(sel: ReasonSelector, reason: PackageReason) -> Option<PackageReason> {
    if passes(sel, is_explicit_reason(reason)) {
        Some(reason)
    } else {
        None
    }
}

impl ReasonSelector {
    pub fn new(explicit: bool, dependency: bool) -> (r: ReasonSelector)
        ensures
            r == selector_for(explicit, dependency),
    {
        match (explicit, dependency) {
            (true, false) => ReasonSelector::Explicit,
            (false, true) => ReasonSelector::Depend,
            _ => ReasonSelector::Both,
        }
    }

    /// The reason itself where this selector keeps it.
    pub fn filter(self, reason: PackageReason) -> (r: Option<PackageReason>)
        ensures
            r == filtered(self, reason),
    {
        match (self, reason) {
            (ReasonSelector::Both, reason) => Some(reason),
            (ReasonSelector::Explicit, PackageReason::Explicit) => Some(reason),
            (ReasonSelector::Depend, PackageReason::Depend) => Some(reason),
            _ => None,
        }
    }

    /// Whether this selector keeps `item`.
    pub fn test(self, item: &ReqByItem) -> (r: bool)
        ensures
            r == passes(self, item_explicit(*item)),
    {
        matches!(self, ReasonSelector::Both) || matches!(self, ReasonSelector::Explicit)
            == item.is_explicit()
    }
}

/// Setting both flags is the same as setting neither: nothing is filtered out,
/// by `filter` or by `test`.
pub proof fn lemma_no_preference_keeps_all(explicit: bool, dependency: bool)
    requires
        explicit == dependency,
    ensures
        selector_for(explicit, dependency) == ReasonSelector::Both,
        forall|reason: PackageReason| #[trigger]
            filtered(selector_for(explicit, dependency), reason) == Some(reason),
        forall|e: bool| #[trigger] passes(selector_for(explicit, dependency), e),
{
}

/// A package found to require another, with its own install reason.
#[derive(Debug)]
pub enum ReqByItem {
    Explicit(String),
    Depend(String),
}

pub open spec fn item_name(item: ReqByItem) -> Seq<char> {
    match item {
        ReqByItem::Explicit(n) => n@,
        ReqByItem::Depend(n) => n@,
    }
}

pub open spec fn item_explicit(item: ReqByItem) -> bool {
    item is Explicit
}

/// `item` stands for the record `rec`.
pub open spec fn describes(item: ReqByItem, rec: PackageRecord) -> bool {
    item_name(item) == rec.name@ && item_explicit(item) == is_explicit_reason(rec.reason)
}

/// The name as drawn in a required-by line: highlighted where it is explicit and
/// colour is on.
pub open spec fn drawn(item: ReqByItem, color: bool) -> Seq<char> {
    if color && item_explicit(item) {
        "\x1b[33m"@ + item_name(item) + "\x1b[m"@
    } else {
        item_name(item)
    }
}

impl ReqByItem {
    pub fn is_explicit(&self) -> (r: bool)
        ensures
            r == item_explicit(*self),
    {
        matches!(self, ReqByItem::Explicit(_))
    }

    pub fn draw(self, color: bool) -> (r: String)
        ensures
            r@ == drawn(self, color),
    {
        match self {
            ReqByItem::Explicit(name) => {
                if color {
                    let mut s = String::from_str("\x1b[33m");
                    s.append(name.as_str());
                    s.append("\x1b[m");
                    s
                } else {
                    name
                }
            },
            ReqByItem::Depend(name) => name,
        }
    }
}

/// The names that record `i` lists as requiring it.
pub open spec fn listed(db: Seq<PackageRecord>, i: int, name: Seq<char>) -> bool {
    exists|k: int| 0 <= k < db[i].required_by@.len() && #[trigger] db[i].required_by@[k]@ == name
}

/// Record `j` is listed as requiring record `i`.
pub open spec fn required_by(db: Seq<PackageRecord>, i: int, j: int) -> bool {
    0 <= j < db.len() && listed(db, i, db[j].name@)
}

/// `c` holds every record that requires `target` and every record that requires
/// a record of `c`.
pub open spec fn closed(db: Seq<PackageRecord>, target: int, c: Set<int>) -> bool {
    &&& forall|j: int| required_by(db, target, j) ==> c.contains(j)
    &&& forall|i: int, j: int| c.contains(i) && required_by(db, i, j) ==> c.contains(j)
}

/// Record `j` requires `target`, directly or through other records: it lies in
/// every closed set, so in the least one.
pub open spec fn requires_transitively(db: Seq<PackageRecord>, target: int, j: int) -> bool {
    forall|c: Set<int>| #[trigger] closed(db, target, c) ==> c.contains(j)
}

/// `item` stands for a record that requires `target` transitively and whose
/// reason `sel` accepts.
pub open spec fn stands_for_requirer(db: Seq<PackageRecord>, target: int, sel: ReasonSelector, item: ReqByItem) -> bool {
    exists|j: int|
        0 <= j < db.len() && #[trigger] describes(item, db[j]) && requires_transitively(db, target, j)
            && passes(sel, is_explicit_reason(db[j].reason))
}

/// `items` is what a required-by search from `target` owes: each stands for a
/// record that requires `target` transitively and that `sel` keeps, every such
/// record has an item, and no name comes twice.
pub open spec fn required_by_result(db: Seq<PackageRecord>, target: int, sel: ReasonSelector, items: Seq<ReqByItem>) -> bool {
    &&& forall|a: int| 0 <= a < items.len() ==> stands_for_requirer(db, target, sel, #[trigger] items[a])
    &&& forall|j: int|
        0 <= j < db.len() && requires_transitively(db, target, j) && passes(sel, is_explicit_reason(db[j].reason))
            ==> exists|a: int| 0 <= a < items.len() && #[trigger] describes(items[a], db[j])
    &&& forall|a: int, b: int|
        0 <= a < items.len() && 0 <= b < items.len() && a != b ==> item_name(items[a]) != item_name(items[b])
}

/// `items` stand, in order, for the records of the breadth-first discovery
/// order from `target` that `sel` keeps; so they also meet `required_by_result`.
pub open spec fn search_result(db: Seq<PackageRecord>, target: int, sel: ReasonSelector, items: Seq<ReqByItem>) -> bool {
    &&& items.len() == kept(db, sel, discovery_order(db, target)).len()
    &&& forall|a: int| 0 <= a < items.len() ==> describes(#[trigger] items[a], db[kept(db, sel, discovery_order(db, target))[a]])
    &&& required_by_result(db, target, sel, items)
}

/// What a required-by search finds: the items, and the listed names that match
/// no record.
#[derive(Debug)]
pub struct RequiredBy {
    pub items: Vec<ReqByItem>,
    pub missing: Vec<String>,
}

pub open spec fn count_false(s: Seq<bool>) -> nat
    decreases s.len(),
{
    if s.len() == 0 {
        0
    } else {
        count_false(s.drop_last()) + if s.last() {
            0nat
        } else {
            1nat
        }
    }
}

proof fn lemma_count_false_set(s: Seq<bool>, i: int)
    requires
        0 <= i < s.len(),
        !s[i],
    ensures
        count_false(s.update(i, true)) + 1 == count_false(s),
    decreases s.len(),
{
    if i == s.len() - 1 {
        assert(s.update(i, true).drop_last() =~= s.drop_last());
    } else {
        lemma_count_false_set(s.drop_last(), i);
        assert(s.update(i, true).drop_last() =~= s.drop_last().update(i, true));
    }
}

pub open spec fn ints(s: Seq<usize>) -> Seq<int> {
    s.map_values(|i: usize| i as int)
}

/// `order` extended by the records that `names` resolve to, in turn, each only
/// where it is not there yet.
pub open spec fn discover(db: Seq<PackageRecord>, names: Seq<Seq<char>>, order: Seq<int>) -> Seq<int>
    decreases names.len(),
{
    if names.len() == 0 {
        order
    } else {
        let o = discover(db, names.drop_last(), order);
        let n = names.last();
        if has_name(db, n) && !o.contains(index_named(db, n)) {
            o.push(index_named(db, n))
        } else {
            o
        }
    }
}

/// Visiting record `p`: the records listed as requiring it join `order`.
pub open spec fn visit(db: Seq<PackageRecord>, p: int, order: Seq<int>) -> Seq<int> {
    discover(db, views(db[p].required_by@), order)
}

/// Breadth-first search: the records of `order` from `head` on are visited in
/// turn, for at most `fuel` steps.
pub open spec fn bfs(db: Seq<PackageRecord>, order: Seq<int>, head: nat, fuel: nat) -> Seq<int>
    decreases fuel,
{
    if fuel == 0 || head >= order.len() {
        order
    } else {
        bfs(db, visit(db, order[head as int], order), head + 1, (fuel - 1) as nat)
    }
}

/// The records that require `target`, directly or transitively, in the order a
/// breadth-first search from it discovers them.
pub open spec fn discovery_order(db: Seq<PackageRecord>, target: int) -> Seq<int> {
    bfs(db, visit(db, target, Seq::empty()), 0, db.len())
}

/// The records of `idx` whose reason `sel` keeps, in order.
pub open spec fn kept(db: Seq<PackageRecord>, sel: ReasonSelector, idx: Seq<int>) -> Seq<int>
    decreases idx.len(),
{
    if idx.len() == 0 {
        Seq::empty()
    } else {
        kept(db, sel, idx.drop_last()) + if passes(sel, is_explicit_reason(db[idx.last()].reason)) {
            seq![idx.last()]
        } else {
            Seq::empty()
        }
    }
}

/// The bookkeeping of a search: `seen` marks exactly the records in `order`,
/// which holds each at most once.
pub open spec fn search_state(n: int, seen: Seq<bool>, order: Seq<usize>) -> bool {
    &&& seen.len() == n
    &&& order.len() + count_false(seen) == n
    &&& forall|k: int| 0 <= k < order.len() ==> order[k] < n && seen[order[k] as int]
    &&& forall|j: int| 0 <= j < n && seen[j] ==> exists|k: int| 0 <= k < order.len() && order[k] == j
    &&& forall|a: int, b: int| 0 <= a < b < order.len() ==> order[a] != order[b]
}

/// Appends to `order` each record listed as requiring record `p` that is not
/// seen yet; names that match no record go to `missing`.
fn expand(db: &PackageDb, p: usize, seen: &mut Vec<bool>, order: &mut Vec<usize>, missing: &mut Vec<String>)
    requires
        db.wf(),
        p < db@.len(),
        search_state(db@.len() as int, old(seen)@, old(order)@),
        forall|m: int| 0 <= m < old(missing)@.len() ==> !has_name(db@, old(missing)@[m]@),
    ensures
        search_state(db@.len() as int, final(seen)@, final(order)@),
        forall|m: int| 0 <= m < final(missing)@.len() ==> !has_name(db@, final(missing)@[m]@),
        final(order)@.len() >= old(order)@.len(),
        final(order)@.take(old(order)@.len() as int) == old(order)@,
        forall|k: int| old(order)@.len() <= k < final(order)@.len() ==> required_by(db@, p as int, final(order)@[k] as int),
        forall|j: int| 0 <= j < db@.len() && old(seen)@[j] ==> final(seen)@[j],
        forall|j: int| required_by(db@, p as int, j) ==> final(seen)@[j],
        ints(final(order)@) == visit(db@, p as int, ints(old(order)@)),
{
    let ghost n = db@.len() as int;
    let rec = db.get(p);
    let mut k: usize = 0;
    while k < rec.required_by.len()
        invariant
            db.wf(),
            *rec == db@[p as int],
            p < n,
            n == db@.len(),
            k <= rec.required_by@.len(),
            search_state(n, seen@, order@),
            forall|m: int| 0 <= m < missing@.len() ==> !has_name(db@, missing@[m]@),
            order@.len() >= old(order)@.len(),
            order@.take(old(order)@.len() as int) == old(order)@,
            forall|q: int| old(order)@.len() <= q < order@.len() ==> required_by(db@, p as int, order@[q] as int),
            forall|j: int| 0 <= j < n && old(seen)@[j] ==> seen@[j],
            forall|j: int, q: int| 0 <= j < n && 0 <= q < k && rec.required_by@[q]@ == db@[j].name@ ==> seen@[j],
            ints(order@) == discover(db@, views(rec.required_by@).take(k as int), ints(old(order)@)),
        decreases rec.required_by@.len() - k,
    {
        let name = &rec.required_by[k];
        let ghost names = views(rec.required_by@).take(k + 1);
        assert(names.drop_last() =~= views(rec.required_by@).take(k as int));
        assert(names.last() == name@);
        let ghost before = ints(order@);
        match db.lookup(name) {
            None => {
                missing.push(name.clone());
                proof {
                    assert forall|j: int| 0 <= j < n implies rec.required_by@[k as int]@ != db@[j].name@ by {
                        if rec.required_by@[k as int]@ == db@[j].name@ {
                            assert(named(db@, j, name@));
                        }
                    }
                }
            },
            Some(j) => {
                assert(required_by(db@, p as int, j as int)) by {
                    assert(db@[p as int].required_by@[k as int]@ == db@[j as int].name@);
                }
                assert(index_named(db@, name@) == j) by {
                    let c = index_named(db@, name@);
                    assert(named(db@, c, name@));
                    if c != j {
                        assert(db@[c].name@ != db@[j as int].name@);
                    }
                }
                assert(before.contains(j as int) == seen@[j as int]) by {
                    if seen@[j as int] {
                        let q = choose|q: int| 0 <= q < order@.len() && order@[q] == j;
                        assert(before[q] == j);
                    }
                    if before.contains(j as int) {
                        let q = choose|q: int| 0 <= q < before.len() && before[q] == j;
                        assert(order@[q] == j);
                    }
                }
                if !seen[j] {
                    let ghost s0 = seen@;
                    let ghost o0 = order@;
                    proof {
                        lemma_count_false_set(s0, j as int);
                    }
                    seen.set(j, true);
                    order.push(j);
                    assert(ints(order@) =~= before.push(j as int));
                    assert(order@.take(old(order)@.len() as int) =~= o0.take(old(order)@.len() as int));
                    assert forall|jj: int| 0 <= jj < n && seen@[jj] implies exists|q: int|
                        0 <= q < order@.len() && order@[q] == jj by {
                        if jj == j {
                            assert(order@[o0.len() as int] == jj);
                        } else {
                            assert(s0[jj]);
                            let q = choose|q: int| 0 <= q < o0.len() && o0[q] == jj;
                            assert(order@[q] == jj);
                        }
                    }
                    assert forall|a: int, b: int| 0 <= a < b < order@.len() implies order@[a] != order@[b] by {
                        if b == o0.len() {
                            assert(s0[o0[a] as int]);
                        }
                    }
                }
                proof {
                    assert forall|jj: int, q: int|
                        0 <= jj < n && 0 <= q < k + 1 && rec.required_by@[q]@ == db@[jj].name@ implies seen@[jj] by {
                        if q == k {
                            if jj != j {
                                assert(unique_names(db@));
                            }
                        }
                    }
                }
            },
        }
        k += 1;
    }
    assert(views(rec.required_by@).take(k as int) =~= views(db@[p as int].required_by@));
    proof {
        assert forall|j: int| required_by(db@, p as int, j) implies seen@[j] by {
            let q = choose|q: int| 0 <= q < db@[p as int].required_by@.len() && #[trigger] db@[p as int].required_by@[q]@ == db@[j].name@;
        }
    }
}

/// Finds, breadth first, the records that require record `target` directly or
/// transitively, each once, and keeps those whose reason `sel` accepts, in the
/// order they were found.
pub fn find_required_by(db: &PackageDb, target: usize, sel: ReasonSelector) -> (r: RequiredBy)
    requires
        db.wf(),
        target < db@.len(),
    ensures
        search_result(db@, target as int, sel, r.items@),
        forall|m: int| 0 <= m < r.missing@.len() ==> !has_name(db@, r.missing@[m]@),
{
    let n = db.len();
    let ghost t = target as int;
    let mut seen: Vec<bool> = Vec::new();
    let mut i: usize = 0;
    while i < n
        invariant
            i <= n,
            seen@ == Seq::new(i as nat, |x: int| false),
            count_false(seen@) == i,
        decreases n - i,
    {
        assert(seen@.push(false).drop_last() =~= seen@);
        seen.push(false);
        assert(seen@ =~= Seq::new((i + 1) as nat, |x: int| false));
        i += 1;
    }
    let mut order: Vec<usize> = Vec::new();
    let mut missing: Vec<String> = Vec::new();
    expand(db, target, &mut seen, &mut order, &mut missing);
    proof {
        assert forall|k: int| 0 <= k < order@.len() implies requires_transitively(db@, t, order@[k] as int) by {
            assert forall|c: Set<int>| #[trigger] closed(db@, t, c) implies c.contains(order@[k] as int) by {
                assert(required_by(db@, t, order@[k] as int));
            }
        }
    }
    let mut head: usize = 0;
    assert(ints(order@) == visit(db@, t, Seq::empty())) by {
        assert(ints(Seq::<usize>::empty()) =~= Seq::<int>::empty());
    }
    while head < order.len()
        invariant
            db.wf(),
            n == db@.len(),
            t < n,
            head <= order@.len(),
            discovery_order(db@, t) == bfs(db@, ints(order@), head as nat, (n - head) as nat),
            search_state(n as int, seen@, order@),
            forall|m: int| 0 <= m < missing@.len() ==> !has_name(db@, missing@[m]@),
            forall|k: int| 0 <= k < order@.len() ==> requires_transitively(db@, t, order@[k] as int),
            forall|j: int| required_by(db@, t, j) ==> seen@[j],
            forall|k: int, j: int| 0 <= k < head && required_by(db@, order@[k] as int, j) ==> seen@[j],
        decreases n - head,
    {
        let p = order[head];
        let ghost o0 = order@;
        let ghost s0 = seen@;
        assert(ints(o0)[head as int] == p as int);
        expand(db, p, &mut seen, &mut order, &mut missing);
        proof {
            assert forall|k: int| 0 <= k < order@.len() implies requires_transitively(db@, t, order@[k] as int) by {
                if k < o0.len() {
                    assert(order@[k] == order@.take(o0.len() as int)[k]);
                } else {
                    assert forall|c: Set<int>| #[trigger] closed(db@, t, c) implies c.contains(order@[k] as int) by {
                        assert(requires_transitively(db@, t, p as int));
                        assert(c.contains(p as int));
                        assert(required_by(db@, p as int, order@[k] as int));
                    }
                }
            }
            assert forall|k: int, j: int| 0 <= k < head + 1 && required_by(db@, order@[k] as int, j) implies seen@[j] by {
                assert(order@[k] == order@.take(o0.len() as int)[k]);
                if k < head {
                    assert(s0[j]);
                }
            }
        }
        head += 1;
    }
    let ghost found = Set::new(|j: int| 0 <= j < n && seen@[j]);
    proof {
        assert(closed(db@, t, found)) by {
            assert forall|i: int, j: int| found.contains(i) && required_by(db@, i, j) implies found.contains(j) by {
                let k = choose|k: int| 0 <= k < order@.len() && order@[k] == i;
            }
        }
    }
    let mut items: Vec<ReqByItem> = Vec::new();
    let ghost mut pos: Seq<int> = Seq::empty();
    let mut k: usize = 0;
    while k < order.len()
        invariant
            db.wf(),
            n == db@.len(),
            k <= order@.len(),
            search_state(n as int, seen@, order@),
            forall|q: int| 0 <= q < order@.len() ==> requires_transitively(db@, t, order@[q] as int),
            closed(db@, t, found),
            forall|j: int| found.contains(j) ==> 0 <= j < n && seen@[j],
            items@.len() == pos.len(),
            forall|a: int, b: int| 0 <= a < b < pos.len() ==> pos[a] < pos[b],
            forall|a: int| 0 <= a < pos.len() ==> 0 <= #[trigger] pos[a] < k,
            forall|a: int| 0 <= a < pos.len() ==> describes(#[trigger] items@[a], db@[order@[pos[a]] as int]),
            forall|a: int| 0 <= a < pos.len() ==> passes(sel, is_explicit_reason(db@[order@[#[trigger] pos[a]] as int].reason)),
            forall|q: int| 0 <= q < k && passes(sel, is_explicit_reason(db@[order@[q] as int].reason))
                ==> exists|a: int| 0 <= a < pos.len() && pos[a] == q,
            items@.len() == kept(db@, sel, ints(order@).take(k as int)).len(),
            forall|a: int|
                0 <= a < items@.len() ==> describes(
                    #[trigger] items@[a],
                    db@[kept(db@, sel, ints(order@).take(k as int))[a]],
                ),
        decreases order@.len() - k,
    {
        let rec = db.get(order[k]);
        let item = match rec.reason {
            PackageReason::Explicit => ReqByItem::Explicit(rec.name.clone()),
            PackageReason::Depend => ReqByItem::Depend(rec.name.clone()),
        };
        assert(describes(item, db@[order@[k as int] as int]));
        let ghost kept0 = kept(db@, sel, ints(order@).take(k as int));
        assert(ints(order@).take(k + 1).drop_last() =~= ints(order@).take(k as int));
        assert(ints(order@).take(k + 1).last() == order@[k as int] as int);
        if sel.test(&item) {
            let ghost items0 = items@;
            let ghost pos0 = pos;
            items.push(item);
            proof {
                pos = pos.push(k as int);
                assert forall|a: int| 0 <= a < pos.len() implies describes(#[trigger] items@[a], db@[order@[pos[a]] as int])
                    && passes(sel, is_explicit_reason(db@[order@[pos[a]] as int].reason)) by {
                    if a < pos0.len() {
                        assert(items@[a] == items0[a]);
                        assert(pos[a] == pos0[a]);
                    }
                }
                assert forall|q: int| 0 <= q < k + 1 && passes(sel, is_explicit_reason(db@[order@[q] as int].reason))
                    implies exists|a: int| 0 <= a < pos.len() && pos[a] == q by {
                    if q < k {
                        let a = choose|a: int| 0 <= a < pos0.len() && pos0[a] == q;
                        assert(pos[a] == q);
                    } else {
                        assert(pos[pos0.len() as int] == q);
                    }
                }
                let kept1 = kept(db@, sel, ints(order@).take(k + 1));
                assert(kept1 =~= kept0.push(order@[k as int] as int));
                assert forall|a: int| 0 <= a < items@.len() implies describes(#[trigger] items@[a], db@[kept1[a]]) by {
                    if a < items0.len() {
                        assert(items@[a] == items0[a]);
                    }
                }
            }
        } else {
            assert(kept(db@, sel, ints(order@).take(k + 1)) =~= kept0);
        }
        k += 1;
    }
    proof {
        assert forall|a: int| 0 <= a < items@.len() implies stands_for_requirer(db@, t, sel, #[trigger] items@[a]) by {
            let j = order@[pos[a]] as int;
            assert(describes(items@[a], db@[j]));
        }
        assert forall|j: int|
            0 <= j < db@.len() && requires_transitively(db@, target as int, j) && passes(
                sel,
                is_explicit_reason(db@[j].reason),
            ) implies exists|a: int| 0 <= a < items@.len() && #[trigger] describes(items@[a], db@[j]) by {
            assert(found.contains(j));
            let q = choose|q: int| 0 <= q < order@.len() && order@[q] == j;
            let a = choose|a: int| 0 <= a < pos.len() && pos[a] == q;
            assert(describes(items@[a], db@[j]));
        }
        assert forall|a: int, b: int|
            0 <= a < items@.len() && 0 <= b < items@.len() && a != b implies item_name(items@[a])
                != item_name(items@[b]) by {
            assert(describes(items@[a], db@[order@[pos[a]] as int]));
            assert(describes(items@[b], db@[order@[pos[b]] as int]));
            assert(pos[a] != pos[b]);
            assert(order@[pos[a]] != order@[pos[b]]);
        }
    }
    assert(ints(order@).take(k as int) =~= ints(order@));
    let ghost found_items = items@;
    assert(required_by_result(db@, t, sel, found_items));
    let r = RequiredBy { items, missing };
    assert(r.items@ == found_items);
    r
}

} // verus!
