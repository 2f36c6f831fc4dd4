use vstd::prelude::*;

verus! {

/// Why a package is installed.
#[derive(Debug, Clone, Copy, PartialEq, Eq, Structural)]
pub enum PackageReason {
    /// Installed at the user's own request.
    Explicit,
    /// Pulled in to satisfy another package's dependency.
    Depend,
}

/// A snapshot of one installed package, as read from the package database.
#[derive(Debug)]
pub struct PackageRecord {
    pub name: String,
    pub version: String,
    pub desc: Option<String>,
    pub reason: PackageReason,
    /// Names of the packages that declare a dependency on this one, in order.
    pub required_by: Vec<String>,
}

/// The installed packages, each name at most once, in insertion order.
pub struct PackageDb {
    records: Vec<PackageRecord>,
}

impl View for PackageDb {
    type V = Seq<PackageRecord>;

    closed spec fn view(&self) -> Seq<PackageRecord> {
        self.records@
    }
}

/// Record `i` of `db` is named `name`.
pub open spec fn named(db: Seq<PackageRecord>, i: int, name: Seq<char>) -> bool {
    0 <= i < db.len() && db[i].name@ == name
}

pub open spec fn has_name(db: Seq<PackageRecord>, name: Seq<char>) -> bool {
    exists|i: int| #[trigger] named(db, i, name)
}

/// The index of the record named `name`.
pub open spec fn index_named(db: Seq<PackageRecord>, name: Seq<char>) -> int {
    choose|i: int| named(db, i, name)
}

/// No two records share a name.
pub open spec fn unique_names(db: Seq<PackageRecord>) -> bool {
    forall|i: int, j: int| 0 <= i < db.len() && 0 <= j < db.len() && i != j ==> db[i].name@ != db[j].name@
}

pub fn same_text(a: &String, b: &String) -> (r: bool)
    ensures
        r == (a@ == b@),
{
    <String as PartialEq>::eq(a, b)
}

impl PackageDb {
    pub open spec fn wf(&self) -> bool {
        unique_names(self@)
    }

    pub fn new() -> (db: PackageDb)
        ensures
            db.wf(),
            db@.len() == 0,
    {
        PackageDb { records: Vec::new() }
    }

    pub fn len(&self) -> (n: usize)
        ensures
            n == self@.len(),
    {
        self.records.len()
    }

    pub fn get(&self, i: usize) -> (r: &PackageRecord)
        requires
            i < self@.len(),
        ensures
            *r == self@[i as int],
    {
        &self.records[i]
    }

    /// The index of the record named `name`, if there is one.
    pub fn lookup(&self, name: &String) -> (r: Option<usize>)
        requires
            self.wf(),
        ensures
            match r {
                Some(i) => named(self@, i as int, name@),
                None => !has_name(self@, name@),
            },
    {
        let mut i: usize = 0;
        while i < self.records.len()
            invariant
                i <= self@.len(),
                forall|j: int| 0 <= j < i ==> self@[j].name@ != name@,
            decreases self@.len() - i,
        {
            if same_text(&self.records[i].name, name) {
                return Some(i);
            }
            i += 1;
        }
        None
    }

    /// Adds `rec` unless a record of that name is there already; says whether it was added.
    pub fn insert(&mut self, rec: PackageRecord) -> (added: bool)
        requires
            old(self).wf(),
        ensures
            final(self).wf(),
            added == !has_name(old(self)@, rec.name@),
            added ==> final(self)@ == old(self)@.push(rec),
            !added ==> final(self)@ == old(self)@,
    {
        match self.lookup(&rec.name) {
            Some(_) => false,
            None => {
                self.records.push(rec);
                assert(named(old(self)@.push(rec), old(self)@.len() as int, rec.name@));
                proof {
                    assert forall|i: int, j: int|
                        0 <= i < self@.len() && 0 <= j < self@.len() && i != j implies self@[i].name@
                        != self@[j].name@ by {
                        if i < old(self)@.len() && j == old(self)@.len() {
                            assert(!named(old(self)@, i, rec.name@));
                        }
                        if j < old(self)@.len() && i == old(self)@.len() {
                            assert(!named(old(self)@, j, rec.name@));
                        }
                    }
                }
                true
            },
        }
    }
}

} // verus!
