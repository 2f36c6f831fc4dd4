use vstd::prelude::*;
use vstd::string::*;
use crate::argparse::{ArgError, text_is};
use crate::text::{join, joined, views};

verus! {

/// One command-line option, as the help text shows it.
#[derive(Debug, Clone, Copy)]
pub struct CliOption {
    pub short: Option<&'static str>,
    pub long: &'static str,
    pub comment: &'static str,
    /// The long name of the option this one belongs under, if any.
    pub group: Option<&'static str>,
    pub takes_value: bool,
}

pub fn option(short: &'static str, long: &'static str, comment: &'static str) -> (r: CliOption)
    ensures
        r == (CliOption { short: Some(short), long, comment, group: None, takes_value: false }),
{
    CliOption { short: Some(short), long, comment, group: None, takes_value: false }
}

pub fn suboption(group: &CliOption, short: &'static str, long: &'static str, comment: &'static str) -> (r:
    CliOption)
    ensures
        r == (CliOption { short: Some(short), long, comment, group: Some(group.long), takes_value: false }),
{
    CliOption { short: Some(short), long, comment, group: Some(group.long), takes_value: false }
}

pub fn option_long_value(long: &'static str, comment: &'static str) -> (r: CliOption)
    ensures
        r == (CliOption { short: None, long, comment, group: None, takes_value: true }),
{
    CliOption { short: None, long, comment, group: None, takes_value: true }
}

/// Every option the program knows, in the order the help text lists them
/// before sorting.
pub open spec fn table() -> Seq<CliOption> {
    let list = CliOption {
        short: Some("-L"),
        long: "--list",
        comment: "utilities for listing packages",
        group: None,
        takes_value: false,
    };
    seq![
        CliOption { short: Some("-c"), long: "--color", comment: "use colors on terminals that support them", group: None, takes_value: false },
        CliOption { short: Some("-h"), long: "--help", comment: "display on any item", group: None, takes_value: false },
        CliOption { short: Some("-v"), long: "--verbose", comment: "print information of what is going on", group: None, takes_value: false },
        CliOption { short: None, long: "--format", comment: "print using the format", group: None, takes_value: true },
        list,
        CliOption { short: Some("-e"), long: "--explicit", comment: "filter on installed packages", group: Some("--list"), takes_value: false },
        CliOption { short: Some("-d"), long: "--dependency", comment: "filter on packages installed as a dependency", group: Some("--list"), takes_value: false },
        CliOption { short: Some("-r"), long: "--required-by", comment: "show packages that requires this package", group: Some("--list"), takes_value: false },
    ]
}

pub fn option_table() -> (r: Vec<CliOption>)
    ensures
        r@ == table(),
{
    let list = option("-L", "--list", "utilities for listing packages");
    let r = vec![
        option("-c", "--color", "use colors on terminals that support them"),
        option("-h", "--help", "display on any item"),
        option("-v", "--verbose", "print information of what is going on"),
        option_long_value("--format", "print using the format"),
        list,
        suboption(&list, "-e", "--explicit", "filter on installed packages"),
        suboption(&list, "-d", "--dependency", "filter on packages installed as a dependency"),
        suboption(&list, "-r", "--required-by", "show packages that requires this package"),
    ];
    assert(r@ =~= table());
    r
}

/// `o` is listed under the option whose long name is `group`, or at the top
/// where there is none.
pub open spec fn in_group(o: CliOption, group: Option<Seq<char>>) -> bool {
    match group {
        Some(g) => match o.group {
            Some(x) => x@ == g,
            None => false,
        },
        None => o.group is None,
    }
}

/// `o` is called `name`, by its short or its long form.
pub open spec fn called(o: CliOption, name: Seq<char>) -> bool {
    (match o.short {
        Some(s) => s@ == name,
        None => false,
    }) || o.long@ == name
}

/// The first option of `tbl` called `name`.
pub open spec fn find_called(tbl: Seq<CliOption>, name: Seq<char>) -> Option<CliOption>
    decreases tbl.len(),
{
    if tbl.len() == 0 {
        None
    } else if called(tbl[0], name) {
        Some(tbl[0])
    } else {
        find_called(tbl.skip(1), name)
    }
}

/// The text an option is sorted by: its short form, else its long one.
pub open spec fn sort_key(o: CliOption) -> Seq<char> {
    match o.short {
        Some(s) => s@,
        None => o.long@,
    }
}

/// `a` comes no later than `b`, comparing character by character.
pub open spec fn lex_le(a: Seq<char>, b: Seq<char>) -> bool
    decreases a.len(),
{
    if a.len() == 0 {
        true
    } else if b.len() == 0 {
        false
    } else if (a[0] as u32) < (b[0] as u32) {
        true
    } else if (a[0] as u32) > (b[0] as u32) {
        false
    } else {
        lex_le(a.skip(1), b.skip(1))
    }
}

pub proof fn lemma_lex_total(a: Seq<char>, b: Seq<char>)
    ensures
        lex_le(a, b) || lex_le(b, a),
    decreases a.len(),
{
    if a.len() > 0 && b.len() > 0 && (a[0] as u32) == (b[0] as u32) {
        lemma_lex_total(a.skip(1), b.skip(1));
    }
}

pub proof fn lemma_lex_trans(a: Seq<char>, b: Seq<char>, c: Seq<char>)
    requires
        lex_le(a, b),
        lex_le(b, c),
    ensures
        lex_le(a, c),
    decreases a.len(),
{
    if a.len() > 0 && b.len() > 0 && c.len() > 0 && (a[0] as u32) == (b[0] as u32) && (b[0] as u32)
        == (c[0] as u32) {
        lemma_lex_trans(a.skip(1), b.skip(1), c.skip(1));
    }
}

pub open spec fn key_le(a: CliOption, b: CliOption) -> bool {
    lex_le(sort_key(a), sort_key(b))
}

/// Each option no later than every one after it.
pub open spec fn sorted_by_key(s: Seq<CliOption>) -> bool {
    forall|i: int, j: int| 0 <= i < j < s.len() ==> key_le(s[i], s[j])
}

/// How an option is shown: `-s|--long`, or the long form indented, with
/// `=VALUE` where it takes one.
pub open spec fn symbol(o: CliOption) -> Seq<char> {
    let base = match o.short {
        Some(s) => s@ + "|"@ + o.long@,
        None => "   "@ + o.long@,
    };
    if o.takes_value {
        base + "=VALUE"@
    } else {
        base
    }
}

pub open spec fn widest(s: Seq<CliOption>) -> nat
    decreases s.len(),
{
    if s.len() == 0 {
        0
    } else {
        let w = widest(s.drop_last());
        let l = symbol(s.last()).len();
        if l > w {
            l
        } else {
            w
        }
    }
}

/// `t` padded with spaces to `w` characters.
pub open spec fn padded(t: Seq<char>, w: nat) -> Seq<char> {
    if t.len() >= w {
        t
    } else {
        t + Seq::new((w - t.len()) as nat, |i: int| ' ')
    }
}

/// One line of help: a tab, the padded symbol, a tab, the comment.
pub open spec fn help_row(o: CliOption, w: nat) -> Seq<char> {
    "\t"@ + padded(symbol(o), w) + "\t"@ + o.comment@
}

pub open spec fn help_rows(s: Seq<CliOption>, w: nat) -> Seq<Seq<char>> {
    s.map_values(|o: CliOption| help_row(o, w))
}

/// The options of `tbl` listed under `group`, in table order.
pub open spec fn members_of(tbl: Seq<CliOption>, group: Option<Seq<char>>) -> Seq<CliOption> {
    tbl.filter(|o: CliOption| in_group(o, group))
}

/// `text` lists the options of `group`, sorted, one row each, symbols padded
/// to the widest.
pub open spec fn group_text(group: Option<Seq<char>>, text: Seq<char>) -> bool {
    exists|s: Seq<CliOption>|
        #[trigger] sorted_by_key(s) && s.to_multiset() == members_of(table(), group).to_multiset()
            && text == joined(help_rows(s, widest(s)), "\n"@)
}

impl CliOption {
    pub fn is_subgroup(&self, other: &CliOption) -> (r: bool)
        ensures
            r == in_group(*self, Some(other.long@)),
    {
        match self.group {
            Some(g) => text_is(g, other.long),
            None => false,
        }
    }

    fn is_called(&self, name: &str) -> (r: bool)
        ensures
            r == called(*self, name@),
    {
        let by_short = match self.short {
            Some(s) => text_is(s, name),
            None => false,
        };
        by_short || text_is(self.long, name)
    }

    fn symbol(&self) -> (r: String)
        ensures
            r@ == symbol(*self),
    {
        let mut t = match self.short {
            Some(s) => {
                let mut t = String::from_str(s);
                t.append("|");
                t.append(self.long);
                t
            },
            None => {
                let mut t = String::from_str("   ");
                t.append(self.long);
                t
            },
        };
        if self.takes_value {
            t.append("=VALUE");
        }
        t
    }
}

fn key_text(o: &CliOption) -> (r: &'static str)
    ensures
        r@ == sort_key(*o),
{
    match o.short {
        Some(s) => s,
        None => o.long,
    }
}

fn lex_le_exec(a: &str, b: &str) -> (r: bool)
    ensures
        r == lex_le(a@, b@),
{
    let na = a.unicode_len();
    let nb = b.unicode_len();
    let mut i: usize = 0;
    assert(a@.skip(0) =~= a@);
    assert(b@.skip(0) =~= b@);
    while i < na && i < nb && a.get_char(i) == b.get_char(i)
        invariant
            i <= na,
            i <= nb,
            na == a@.len(),
            nb == b@.len(),
            lex_le(a@, b@) == lex_le(a@.skip(i as int), b@.skip(i as int)),
        decreases na - i,
    {
        assert(a@.skip(i as int).skip(1) =~= a@.skip(i + 1));
        assert(b@.skip(i as int).skip(1) =~= b@.skip(i + 1));
        i += 1;
    }
    if i == na {
        true
    } else if i == nb {
        false
    } else {
        let ca = a.get_char(i);
        let cb = b.get_char(i);
        assert(a@.skip(i as int)[0] == ca);
        assert(b@.skip(i as int)[0] == cb);
        (ca as u32) < (cb as u32)
    }
}

/// The group's options sorted by key, from the whole table in order.
fn sorted_members(tbl: &Vec<CliOption>, group: Option<CliOption>) -> (r: Vec<CliOption>)
    requires
        tbl@ == table(),
    ensures
        sorted_by_key(r@),
        r@.to_multiset() == members_of(table(), group_name(group)).to_multiset(),
{
    let mut sorted: Vec<CliOption> = Vec::new();
    let mut i: usize = 0;
    assert(table().take(0) =~= Seq::<CliOption>::empty());
    assert(members_of(table().take(0), group_name(group)) =~= sorted@);
    while i < tbl.len()
        invariant
            tbl@ == table(),
            i <= tbl@.len(),
            sorted_by_key(sorted@),
            sorted@.to_multiset() == members_of(table().take(i as int), group_name(group)).to_multiset(),
        decreases tbl@.len() - i,
    {
        let o = tbl[i];
        assert(table().take(i + 1).drop_last() =~= table().take(i as int));
        assert(table().take(i + 1).last() == o);
        let keep = match group {
            Some(g) => o.is_subgroup(&g),
            None => o.group.is_none(),
        };
        if keep {
            let mut p: usize = 0;
            while p < sorted.len() && lex_le_exec(key_text(&sorted[p]), key_text(&o))
                invariant
                    p <= sorted@.len(),
                    forall|q: int| 0 <= q < p ==> key_le(sorted@[q], o),
                decreases sorted@.len() - p,
            {
                p += 1;
            }
            let ghost old_sorted = sorted@;
            proof {
                if p < old_sorted.len() {
                    lemma_lex_total(sort_key(old_sorted[p as int]), sort_key(o));
                }
            }
            sorted.insert(p, o);
            proof {
                vstd::seq_lib::to_multiset_insert(old_sorted, p as int, o);
                vstd::seq_lib::to_multiset_build(members_of(table().take(i as int), group_name(group)), o);
                assert forall|a: int, b: int| 0 <= a < b < sorted@.len() implies key_le(sorted@[a], sorted@[b]) by {
                    if b == p {
                    } else if a == p && b - 1 > p {
                        assert(key_le(old_sorted[p as int], old_sorted[b - 1]));
                        lemma_lex_trans(sort_key(o), sort_key(old_sorted[p as int]), sort_key(old_sorted[b - 1]));
                    } else if a < p && b > p {
                        assert(sorted@[b] == old_sorted[b - 1]);
                    } else if a > p {
                        assert(sorted@[a] == old_sorted[a - 1]);
                        assert(sorted@[b] == old_sorted[b - 1]);
                    }
                }
            }
        }
        assert(keep == in_group(o, group_name(group)));
        proof {
            lemma_members_step(table().take(i + 1), group_name(group));
        }
        i += 1;
    }
    assert(table().take(i as int) =~= table());
    sorted
}

proof fn lemma_members_step(tbl: Seq<CliOption>, group: Option<Seq<char>>)
    requires
        tbl.len() > 0,
    ensures
        members_of(tbl, group) == if in_group(tbl.last(), group) {
            members_of(tbl.drop_last(), group).push(tbl.last())
        } else {
            members_of(tbl.drop_last(), group)
        },
{
    reveal(Seq::filter);
}

/// The long name of a group option.
pub open spec fn group_name(group: Option<CliOption>) -> Option<Seq<char>> {
    match group {
        Some(g) => Some(g.long@),
        None => None,
    }
}

fn widest_exec(s: &Vec<CliOption>) -> (r: usize)
    ensures
        r == widest(s@),
{
    let mut w: usize = 0;
    let mut i: usize = 0;
    while i < s.len()
        invariant
            i <= s@.len(),
            w == widest(s@.take(i as int)),
        decreases s@.len() - i,
    {
        assert(s@.take(i + 1).drop_last() =~= s@.take(i as int));
        let l = s[i].symbol().unicode_len();
        if l > w {
            w = l;
        }
        i += 1;
    }
    assert(s@.take(i as int) =~= s@);
    w
}

fn help_row_exec(o: &CliOption, w: usize) -> (r: String)
    ensures
        r@ == help_row(*o, w as nat),
{
    let sym = o.symbol();
    let len = sym.unicode_len();
    let mut row = String::from_str("\t");
    row.append(sym.as_str());
    let ghost head = row@;
    let mut k: usize = len;
    assert(row@ =~= head + Seq::new((k - len) as nat, |i: int| ' '));
    while k < w
        invariant
            len <= k,
            k <= w || k == len,
            len == sym@.len(),
            row@ == head + Seq::new((k - len) as nat, |i: int| ' '),
        decreases w - k,
    {
        proof {
            reveal_strlit(" ");
        }
        row.append(" ");
        assert(row@ =~= head + Seq::new((k + 1 - len) as nat, |i: int| ' '));
        k += 1;
    }
    let ghost pad = row@;
    assert(pad =~= "\t"@ + padded(symbol(*o), w as nat));
    row.append("\t");
    row.append(o.comment);
    row
}

/// The help lines for the options under `option` (a short or long name), or
/// for the top-level options where it is absent; an unknown name is an error.
pub fn print_argument_group(option: Option<&str>) -> (r: Result<String, ArgError>)
    ensures
        match option {
            None => match r {
                Ok(t) => group_text(None, t@),
                Err(_) => false,
            },
            Some(o) => match find_called(table(), o@) {
                Some(g) => match r {
                    Ok(t) => group_text(Some(g.long@), t@),
                    Err(_) => false,
                },
                None => match r {
                    Err(ArgError::UnknownOption(u)) => u@ == o@,
                    _ => false,
                },
            },
        },
{
    let tbl = option_table();
    let mut group: Option<CliOption> = None;
    match option {
        Some(o) => {
            let mut i: usize = 0;
            assert(table().skip(0) =~= table());
            while i < tbl.len() && group.is_none()
                invariant
                    tbl@ == table(),
                    i <= tbl@.len(),
                    match group {
                        Some(g) => find_called(table(), o@) == Some(g),
                        None => find_called(table(), o@) == find_called(table().skip(i as int), o@),
                    },
                decreases tbl@.len() - i,
            {
                assert(table().skip(i as int)[0] == tbl@[i as int]);
                assert(table().skip(i as int).skip(1) =~= table().skip(i + 1));
                if tbl[i].is_called(o) {
                    group = Some(tbl[i]);
                }
                i += 1;
            }
            if group.is_none() {
                return Err(ArgError::UnknownOption(String::from_str(o)));
            }
        },
        None => {},
    }
    let sorted = sorted_members(&tbl, group);
    let w = widest_exec(&sorted);
    let mut rows: Vec<String> = Vec::new();
    let mut k: usize = 0;
    while k < sorted.len()
        invariant
            k <= sorted@.len(),
            w == widest(sorted@),
            views(rows@) == help_rows(sorted@, w as nat).take(k as int),
        decreases sorted@.len() - k,
    {
        let ghost before = views(rows@);
        rows.push(help_row_exec(&sorted[k], w));
        assert(views(rows@) =~= before.push(help_row(sorted@[k as int], w as nat)));
        assert(views(rows@) =~= help_rows(sorted@, w as nat).take(k + 1));
        k += 1;
    }
    assert(help_rows(sorted@, w as nat).take(k as int) =~= help_rows(sorted@, w as nat));
    let text = join(&rows, "\n");
    assert(sorted_by_key(sorted@));
    Ok(text)
}

} // verus!
