use vstd::prelude::*;
use vstd::string::*;
use crate::argparse::{ApiList, CommonOptions};
use crate::listing::{
    ReasonSelector, ReqByItem, drawn, find_required_by, is_explicit_reason, passes, search_result, selector_for,
};
use crate::output::{CompiledFormat, Piece, compile_spec, render, template_ok};
use crate::package::{PackageDb, PackageRecord, has_name, index_named, named};
use crate::query::{ParseError, Query, query_rejected, query_target, rejected_with};
use crate::text::{join, joined, views};

verus! {

/// Why a listing failed.
#[derive(Debug)]
pub enum ProgramError {
    NoPackagesFound,
    InvalidFormat(String),
    InvalidRequest(String),
    InvalidQuery(ParseError),
}

impl ProgramError {
    /// The one-line description of the error.
    pub fn message(&self) -> (r: String)
        ensures
            r@ == match self {
                ProgramError::NoPackagesFound => "no matching packages found"@,
                ProgramError::InvalidFormat(f) => "invalid format '"@ + f@ + "'"@,
                ProgramError::InvalidRequest(m) => m@,
                ProgramError::InvalidQuery(e) => match e {
                    ParseError::InvalidProperty(p) => "property not supported: "@ + p@,
                    ParseError::SyntaxError => "invalid syntax"@,
                },
            },
    {
        match self {
            ProgramError::NoPackagesFound => String::from_str("no matching packages found"),
            ProgramError::InvalidFormat(f) => {
                let mut s = String::from_str("invalid format '");
                s.append(f.as_str());
                s.append("'");
                s
            },
            ProgramError::InvalidRequest(m) => m.clone(),
            ProgramError::InvalidQuery(e) => e.message(),
        }
    }
}

/// A validated listing request, ready to run against the database.
#[derive(Debug)]
pub struct Plan {
    pub format: CompiledFormat,
    pub selector: ReasonSelector,
    /// The package names asked for; none means every installed package.
    pub names: Vec<String>,
    pub required_by: bool,
    pub color: bool,
}

/// The lines a listing produces, and the names met during required-by searches
/// that match no installed package.
#[derive(Debug)]
pub struct Listing {
    pub lines: Vec<String>,
    pub missing: Vec<String>,
}

/// A required-by listing with no package to start from.
pub open spec fn request_invalid(list: ApiList) -> bool {
    list.required_by && list.queries@.len() == 0
}

pub open spec fn format_invalid(common: CommonOptions) -> bool {
    match common.format {
        Some(f) => !template_ok(f@),
        None => false,
    }
}

/// The steps that the given template, or the default one, compiles to.
pub open spec fn format_steps(common: CommonOptions) -> Seq<Piece> {
    match common.format {
        Some(f) => compile_spec(f@)->0,
        None => seq![Piece::Name],
    }
}

pub open spec fn queries_invalid(list: ApiList) -> bool {
    exists|k: int| 0 <= k < list.queries@.len() && query_rejected(#[trigger] list.queries@[k]@)
}

/// `e` is what the first rejected query of `list` is rejected with.
pub open spec fn first_rejection(list: ApiList, e: ParseError) -> bool {
    exists|k: int|
        0 <= k < list.queries@.len() && #[trigger] rejected_with(list.queries@[k]@, e) && forall|m: int|
            0 <= m < k ==> !query_rejected(#[trigger] list.queries@[m]@)
}

pub open spec fn query_targets(list: ApiList) -> Seq<Seq<char>> {
    list.queries@.map_values(|s: String| query_target(s@))
}

/// The indices of the records named in `names`, in order, dropping names that
/// match none.
pub open spec fn matched(db: Seq<PackageRecord>, names: Seq<Seq<char>>) -> Seq<int>
    decreases names.len(),
{
    if names.len() == 0 {
        Seq::empty()
    } else {
        matched(db, names.drop_last()) + if has_name(db, names.last()) {
            seq![index_named(db, names.last())]
        } else {
            Seq::empty()
        }
    }
}

/// The records a listing acts on: every record where no name is given.
pub open spec fn resolved(db: Seq<PackageRecord>, names: Seq<Seq<char>>) -> Seq<int> {
    if names.len() == 0 {
        Seq::new(db.len(), |i: int| i)
    } else {
        matched(db, names)
    }
}

/// The lines of a direct listing of the records `idx`: one rendered line for
/// each record whose reason `sel` keeps.
pub open spec fn direct_lines(
    fmt: Seq<Piece>,
    sel: ReasonSelector,
    db: Seq<PackageRecord>,
    idx: Seq<int>,
) -> Seq<Seq<char>>
    decreases idx.len(),
{
    if idx.len() == 0 {
        Seq::empty()
    } else {
        direct_lines(fmt, sel, db, idx.drop_last()) + if passes(
            sel,
            is_explicit_reason(db[idx.last()].reason),
        ) {
            seq![render(fmt, db[idx.last()])]
        } else {
            Seq::empty()
        }
    }
}

pub open spec fn drawn_all(items: Seq<ReqByItem>, color: bool) -> Seq<Seq<char>> {
    items.map_values(|it: ReqByItem| drawn(it, color))
}

/// The lines of a required-by listing whose searches found `found`, one per
/// record: its drawn names, space separated, where it found any.
pub open spec fn required_by_lines(found: Seq<Seq<ReqByItem>>, color: bool) -> Seq<Seq<char>>
    decreases found.len(),
{
    if found.len() == 0 {
        Seq::empty()
    } else {
        required_by_lines(found.drop_last(), color) + if found.last().len() > 0 {
            seq![joined(drawn_all(found.last(), color), " "@)]
        } else {
            Seq::empty()
        }
    }
}

/// `lines` is a required-by listing of the records `idx`: the search result
/// for each, drawn as its lines.
pub open spec fn required_by_listing(
    db: Seq<PackageRecord>,
    sel: ReasonSelector,
    color: bool,
    idx: Seq<int>,
    lines: Seq<Seq<char>>,
) -> bool {
    exists|found: Seq<Seq<ReqByItem>>|
        found.len() == idx.len() && (forall|k: int|
            0 <= k < idx.len() ==> search_result(db, idx[k], sel, #[trigger] found[k])) && lines
            == required_by_lines(found, color)
}

/// Checks a listing request before the database is touched: a required-by
/// listing needs a package, the template must compile, and every query must
/// parse (the first that does not is reported).
pub fn prepare(list: &ApiList, common: &CommonOptions) -> (r: Result<Plan, ProgramError>)
    ensures
        request_invalid(*list) <==> r matches Err(ProgramError::InvalidRequest(_)),
        match r {
            Ok(plan) => {
                &&& !request_invalid(*list) && !format_invalid(*common) && !queries_invalid(*list)
                &&& plan.format@ == format_steps(*common)
                &&& plan.selector == selector_for(list.explicit, list.dependency)
                &&& views(plan.names@) == query_targets(*list)
                &&& plan.required_by == list.required_by
                &&& plan.color == common.color
            },
            Err(ProgramError::InvalidRequest(_)) => request_invalid(*list),
            Err(ProgramError::InvalidFormat(f)) => !request_invalid(*list) && format_invalid(*common)
                && common.format->0@ == f@,
            Err(ProgramError::InvalidQuery(e)) => !request_invalid(*list) && !format_invalid(*common)
                && first_rejection(*list, e),
            Err(ProgramError::NoPackagesFound) => false,
        },
{
    if list.required_by && list.queries.len() == 0 {
        return Err(ProgramError::InvalidRequest(
            String::from_str("you cannot use --required-by without specifying packages"),
        ));
    }
    let format = match &common.format {
        Some(f) => match CompiledFormat::compile(f.as_str()) {
            Some(c) => c,
            None => {
                return Err(ProgramError::InvalidFormat(f.clone()));
            },
        },
        None => CompiledFormat::name_only(),
    };
    let selector = ReasonSelector::new(list.explicit, list.dependency);
    let mut names: Vec<String> = Vec::new();
    let mut k: usize = 0;
    while k < list.queries.len()
        invariant
            k <= list.queries@.len(),
            !request_invalid(*list),
            !format_invalid(*common),
            format@ == format_steps(*common),
            views(names@) == query_targets(*list).take(k as int),
            forall|m: int| 0 <= m < k ==> !query_rejected(#[trigger] list.queries@[m]@),
        decreases list.queries@.len() - k,
    {
        match Query::parse(list.queries[k].as_str()) {
            Ok(Query::PackageName(n)) => {
                let ghost before = names@;
                assert(query_targets(*list)[k as int] == query_target(list.queries@[k as int]@));
                names.push(n);
                assert(views(names@) =~= views(before).push(n@));
                assert(views(names@) =~= query_targets(*list).take(k + 1));
            },
            Err(e) => {
                assert(rejected_with(list.queries@[k as int]@, e));
                assert(first_rejection(*list, e));
                return Err(ProgramError::InvalidQuery(e));
            },
        }
        k += 1;
    }
    assert(query_targets(*list).take(k as int) =~= query_targets(*list));
    Ok(
        Plan {
            format,
            selector,
            names,
            required_by: list.required_by,
            color: common.color,
        },
    )
}

/// The indices of the records that `names` ask for, in order; every record
/// where `names` is empty.
fn resolve(db: &PackageDb, names: &Vec<String>) -> (r: Vec<usize>)
    requires
        db.wf(),
    ensures
        r@.map_values(|i: usize| i as int) == resolved(db@, views(names@)),
        forall|k: int| 0 <= k < r@.len() ==> r@[k] < db@.len(),
{
    let mut picked: Vec<usize> = Vec::new();
    if names.len() == 0 {
        let n = db.len();
        let mut i: usize = 0;
        while i < n
            invariant
                i <= n,
                n == db@.len(),
                picked@.map_values(|i: usize| i as int) == Seq::new(i as nat, |j: int| j),
                forall|k: int| 0 <= k < picked@.len() ==> picked@[k] < db@.len(),
            decreases n - i,
        {
            let ghost before = picked@;
            picked.push(i);
            assert(picked@.map_values(|i: usize| i as int) =~= before.map_values(|i: usize| i as int).push(i as int));
            assert(picked@.map_values(|i: usize| i as int) =~= Seq::new((i + 1) as nat, |j: int| j));
            i += 1;
        }
        return picked;
    }
    let mut k: usize = 0;
    while k < names.len()
        invariant
            db.wf(),
            k <= names@.len(),
            picked@.map_values(|i: usize| i as int) == matched(db@, views(names@).take(k as int)),
            forall|q: int| 0 <= q < picked@.len() ==> picked@[q] < db@.len(),
        decreases names@.len() - k,
    {
        let ghost before = picked@;
        let ghost taken = views(names@).take(k + 1);
        assert(taken.drop_last() =~= views(names@).take(k as int));
        assert(taken.last() == names@[k as int]@);
        match db.lookup(&names[k]) {
            Some(i) => {
                picked.push(i);
                assert(index_named(db@, names@[k as int]@) == i) by {
                    let c = index_named(db@, names@[k as int]@);
                    assert(named(db@, c, names@[k as int]@));
                    if c != i {
                        assert(db@[c].name@ != db@[i as int].name@);
                    }
                }
                assert(picked@.map_values(|i: usize| i as int) =~= before.map_values(|i: usize| i as int).push(i as int));
            },
            None => {},
        }
        k += 1;
    }
    assert(views(names@).take(k as int) =~= views(names@));
    picked
}

/// Runs a validated listing against the database: no record to act on is an
/// error; otherwise a direct listing gives one rendered line per record whose
/// reason is kept, and a required-by listing gives, per record, the names that
/// require it, space separated, where there are any.
pub fn run(plan: &Plan, db: &PackageDb) -> (r: Result<Listing, ProgramError>)
    requires
        db.wf(),
    ensures
        match r {
            Ok(l) => {
                &&& resolved(db@, views(plan.names@)).len() > 0
                &&& !plan.required_by ==> views(l.lines@) == direct_lines(
                    plan.format@,
                    plan.selector,
                    db@,
                    resolved(db@, views(plan.names@)),
                )
                &&& plan.required_by ==> required_by_listing(
                    db@,
                    plan.selector,
                    plan.color,
                    resolved(db@, views(plan.names@)),
                    views(l.lines@),
                )
                &&& forall|m: int| 0 <= m < l.missing@.len() ==> !has_name(db@, #[trigger] l.missing@[m]@)
            },
            Err(e) => e is NoPackagesFound && resolved(db@, views(plan.names@)).len() == 0,
        },
{
    let picked = resolve(db, &plan.names);
    let ghost idx = resolved(db@, views(plan.names@));
    assert(picked@.len() == idx.len());
    if picked.len() == 0 {
        return Err(ProgramError::NoPackagesFound);
    }
    let mut lines: Vec<String> = Vec::new();
    let mut missing: Vec<String> = Vec::new();
    let mut k: usize = 0;
    let ghost mut found: Seq<Seq<ReqByItem>> = Seq::empty();
    while k < picked.len()
        invariant
            db.wf(),
            k <= picked@.len(),
            picked@.len() == idx.len(),
            picked@.map_values(|i: usize| i as int) == idx,
            forall|q: int| 0 <= q < picked@.len() ==> picked@[q] < db@.len(),
            !plan.required_by ==> views(lines@) == direct_lines(plan.format@, plan.selector, db@, idx.take(k as int)),
            found.len() == k,
            plan.required_by ==> forall|q: int|
                0 <= q < k ==> search_result(db@, idx[q], plan.selector, #[trigger] found[q]),
            plan.required_by ==> views(lines@) == required_by_lines(found, plan.color),
            forall|m: int| 0 <= m < missing@.len() ==> !has_name(db@, #[trigger] missing@[m]@),
        decreases picked@.len() - k,
    {
        let i = picked[k];
        let ghost before = lines@;
        assert(idx.take(k + 1).drop_last() =~= idx.take(k as int));
        assert(idx.take(k + 1).last() == i as int);
        let rec = db.get(i);
        if plan.required_by {
            let search = find_required_by(db, i, plan.selector);
            let ghost items0 = search.items@;
            let mut items = search.items;
            let mut gone = search.missing;
            let ghost m0 = missing@;
            missing.append(&mut gone);
            assert forall|m: int| 0 <= m < missing@.len() implies !has_name(db@, #[trigger] missing@[m]@) by {
                if m >= m0.len() {
                    assert(missing@[m] == search.missing@[m - m0.len()]);
                } else {
                    assert(missing@[m] == m0[m]);
                }
            }
            let mut names: Vec<String> = Vec::new();
            let mut j: usize = 0;
            let count = items.len();
            while j < count
                invariant
                    j <= count,
                    count == items0.len(),
                    items@ == items0.skip(j as int),
                    views(names@) == drawn_all(items0, plan.color).take(j as int),
                decreases count - j,
            {
                let ghost d0 = views(names@);
                let ghost rest0 = items@;
                let item = items.remove(0);
                assert(items@ =~= items0.skip(j + 1));
                names.push(item.draw(plan.color));
                assert(views(names@) =~= d0.push(drawn(items0[j as int], plan.color)));
                assert(views(names@) =~= drawn_all(items0, plan.color).take(j + 1));
                j += 1;
            }
            assert(drawn_all(items0, plan.color).take(j as int) =~= drawn_all(items0, plan.color));
            let ghost found0 = found;
            proof {
                found = found.push(items0);
                assert(found.drop_last() =~= found0);
            }
            if names.len() > 0 {
                lines.push(join(&names, " "));
                assert(views(lines@) =~= views(before).push(joined(drawn_all(items0, plan.color), " "@)));
            } else {
                assert(views(lines@) =~= views(before) + Seq::<Seq<char>>::empty());
            }
            assert(forall|q: int| 0 <= q < k ==> found[q] == found0[q]);
            assert(found[k as int] == items0);
            assert(idx[k as int] == i as int);
        } else {
            proof {
                found = found.push(Seq::empty());
            }
            match plan.selector.filter(rec.reason) {
                Some(_) => {
                    lines.push(plan.format.display(rec));
                    assert(views(lines@) =~= views(before).push(render(plan.format@, db@[i as int])));
                },
                None => {
                    assert(views(lines@) =~= views(before));
                },
            }
        }
        k += 1;
    }
    assert(idx.take(k as int) =~= idx);
    assert(plan.required_by ==> required_by_listing(db@, plan.selector, plan.color, idx, views(lines@)));
    Ok(Listing { lines, missing })
}

/// Validates a listing request and runs it against the database.
pub fn list_packages(db: &PackageDb, list: &ApiList, common: &CommonOptions) -> (r: Result<Listing, ProgramError>)
    requires
        db.wf(),
    ensures
        request_invalid(*list) <==> r matches Err(ProgramError::InvalidRequest(_)),
        match r {
            Ok(l) => {
                &&& !request_invalid(*list) && !format_invalid(*common) && !queries_invalid(*list)
                &&& resolved(db@, query_targets(*list)).len() > 0
                &&& !list.required_by ==> views(l.lines@) == direct_lines(
                    format_steps(*common),
                    selector_for(list.explicit, list.dependency),
                    db@,
                    resolved(db@, query_targets(*list)),
                )
                &&& list.required_by ==> required_by_listing(
                    db@,
                    selector_for(list.explicit, list.dependency),
                    common.color,
                    resolved(db@, query_targets(*list)),
                    views(l.lines@),
                )
                &&& forall|m: int| 0 <= m < l.missing@.len() ==> !has_name(db@, #[trigger] l.missing@[m]@)
            },
            Err(ProgramError::InvalidRequest(_)) => request_invalid(*list),
            Err(ProgramError::InvalidFormat(f)) => !request_invalid(*list) && format_invalid(*common)
                && common.format->0@ == f@,
            Err(ProgramError::InvalidQuery(e)) => !request_invalid(*list) && !format_invalid(*common)
                && first_rejection(*list, e),
            Err(ProgramError::NoPackagesFound) => !request_invalid(*list) && !format_invalid(*common)
                && !queries_invalid(*list) && resolved(db@, query_targets(*list)).len() == 0,
        },
{
    let plan = prepare(list, common)?;
    run(&plan, db)
}

} // verus!
