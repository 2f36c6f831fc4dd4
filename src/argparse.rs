use vstd::prelude::*;
use vstd::string::*;
use crate::text::views;

verus! {

/// The options of the listing command.
#[derive(Debug)]
pub struct ApiList {
    pub queries: Vec<String>,
    pub explicit: bool,
    pub dependency: bool,
    pub required_by: bool,
}

/// The command that the arguments select.
#[derive(Debug)]
pub enum Api {
    Empty,
    Help,
    HelpWith(String),
    List(ApiList),
}

/// Options that apply to every command.
#[derive(Debug)]
pub struct CommonOptions {
    pub verbose: bool,
    pub color: bool,
    pub format: Option<String>,
}

/// Why the arguments were rejected.
#[derive(Debug)]
pub enum ArgError {
    UnknownOption(String),
    DuplicateOption(String),
}

impl ArgError {
    /// The one-line description of the error.
    pub fn message(&self) -> (r: String)
        ensures
            r@ == match self {
                ArgError::UnknownOption(o) => "unknown option: "@ + o@,
                ArgError::DuplicateOption(o) => "duplicate option: "@ + o@,
            },
    {
        match self {
            ArgError::UnknownOption(o) => {
                let mut s = String::from_str("unknown option: ");
                s.append(o.as_str());
                s
            },
            ArgError::DuplicateOption(o) => {
                let mut s = String::from_str("duplicate option: ");
                s.append(o.as_str());
                s
            },
        }
    }
}

/// A command, as a mathematical value.
pub enum ApiState {
    Empty,
    Help,
    HelpWith(Seq<char>),
    /// Queries, then the explicit, dependency and required-by flags.
    List(Seq<Seq<char>>, bool, bool, bool),
}

/// Everything the arguments have set so far.
pub struct CliState {
    pub api: ApiState,
    pub verbose: bool,
    pub color: bool,
    pub format: Option<Seq<char>>,
}

pub enum ArgFault {
    Unknown(Seq<char>),
    Duplicate(Seq<char>),
}

pub open spec fn list_state(l: ApiList) -> ApiState {
    ApiState::List(views(l.queries@), l.explicit, l.dependency, l.required_by)
}

pub open spec fn api_state(a: Api) -> ApiState {
    match a {
        Api::Empty => ApiState::Empty,
        Api::Help => ApiState::Help,
        Api::HelpWith(s) => ApiState::HelpWith(s@),
        Api::List(l) => list_state(l),
    }
}

pub open spec fn text_option(o: Option<String>) -> Option<Seq<char>> {
    match o {
        Some(s) => Some(s@),
        None => None,
    }
}

pub open spec fn cli_state(api: Api, common: CommonOptions) -> CliState {
    CliState { api: api_state(api), verbose: common.verbose, color: common.color, format: text_option(common.format) }
}

pub open spec fn fault(e: ArgError) -> ArgFault {
    match e {
        ArgError::UnknownOption(s) => ArgFault::Unknown(s@),
        ArgError::DuplicateOption(s) => ArgFault::Duplicate(s@),
    }
}

/// An argument that starts with `-`.
pub open spec fn is_option_text(s: Seq<char>) -> bool {
    s.len() > 0 && s[0] == '-'
}

/// An argument that starts with `--`.
pub open spec fn is_long_text(s: Seq<char>) -> bool {
    s.len() > 1 && s[0] == '-' && s[1] == '-'
}

/// A bundle of one-letter options, such as `-ec`.
pub open spec fn is_short_text(s: Seq<char>) -> bool {
    is_option_text(s) && !is_long_text(s)
}

/// The first `=` of `s` stands at `c`.
pub open spec fn first_eq_at(s: Seq<char>, c: int) -> bool {
    0 <= c < s.len() && s[c] == '=' && forall|i: int| 0 <= i < c ==> s[i] != '='
}

/// `s` is `--format=VALUE`; the value follows the `=` at `c`.
pub open spec fn format_at(s: Seq<char>, c: int) -> bool {
    first_eq_at(s, c) && s.take(c) == "--format"@
}

pub open spec fn is_format_text(s: Seq<char>) -> bool {
    exists|c: int| #[trigger] format_at(s, c)
}

/// What an option does to the listing command.
pub open spec fn list_step(
    q: Seq<Seq<char>>,
    e: bool,
    d: bool,
    r: bool,
    opt: Seq<char>,
) -> Result<ApiState, ArgFault> {
    if opt == "--help"@ {
        Ok(ApiState::HelpWith("--list"@))
    } else if opt == "--explicit"@ {
        if e {
            Err(ArgFault::Duplicate(opt))
        } else {
            Ok(ApiState::List(q, true, d, r))
        }
    } else if opt == "--dependency"@ {
        if d {
            Err(ArgFault::Duplicate(opt))
        } else {
            Ok(ApiState::List(q, e, true, r))
        }
    } else if opt == "--required-by"@ {
        if r {
            Err(ArgFault::Duplicate(opt))
        } else {
            Ok(ApiState::List(q, e, d, true))
        }
    } else if !is_option_text(opt) {
        Ok(ApiState::List(q.push(opt), e, d, r))
    } else {
        Err(ArgFault::Unknown(opt))
    }
}

/// What an option does to the command chosen so far.
pub open spec fn api_step(a: ApiState, opt: Seq<char>) -> Result<ApiState, ArgFault> {
    match a {
        ApiState::Help => Ok(ApiState::Help),
        ApiState::HelpWith(s) => Ok(ApiState::HelpWith(s)),
        ApiState::Empty => if opt == "--list"@ {
            Ok(ApiState::List(Seq::empty(), false, false, false))
        } else if opt == "--help"@ {
            Ok(ApiState::Help)
        } else {
            Err(ArgFault::Unknown(opt))
        },
        ApiState::List(q, e, d, r) => list_step(q, e, d, r, opt),
    }
}

/// What one (expanded) argument does: the common options first, then the command.
pub open spec fn cli_step(st: CliState, opt: Seq<char>) -> Result<CliState, ArgFault> {
    if is_format_text(opt) {
        let c = choose|c: int| format_at(opt, c);
        if st.format is None {
            Ok(CliState { format: Some(opt.skip(c + 1)), ..st })
        } else {
            Err(ArgFault::Duplicate(opt.take(c)))
        }
    } else if opt == "--verbose"@ {
        if st.verbose {
            Err(ArgFault::Duplicate(opt))
        } else {
            Ok(CliState { verbose: true, ..st })
        }
    } else if opt == "--color"@ {
        if st.color {
            Err(ArgFault::Duplicate(opt))
        } else {
            Ok(CliState { color: true, ..st })
        }
    } else {
        match api_step(st.api, opt) {
            Ok(a) => Ok(CliState { api: a, ..st }),
            Err(e) => Err(e),
        }
    }
}

pub open spec fn initial_state() -> CliState {
    CliState { api: ApiState::Empty, verbose: false, color: false, format: None }
}

/// Where neither or both reason flags are given, both hold.
pub open spec fn with_defaults(st: CliState) -> CliState {
    match st.api {
        ApiState::List(q, e, d, r) => if e == d {
            CliState { api: ApiState::List(q, true, true, r), ..st }
        } else {
            st
        },
        _ => st,
    }
}

pub fn text_is(s: &str, lit: &str) -> (r: bool)
    ensures
        r == (s@ == lit@),
{
    let a = String::from_str(s);
    let b = String::from_str(lit);
    a == b
}

pub fn is_option(option: &str) -> (r: bool)
    ensures
        r == is_option_text(option@),
{
    option.unicode_len() > 0 && option.get_char(0) == '-'
}

pub fn is_long_option(option: &str) -> (r: bool)
    ensures
        r == is_long_text(option@),
{
    option.unicode_len() > 1 && option.get_char(0) == '-' && option.get_char(1) == '-'
}

pub fn is_short_option(option: &str) -> (r: bool)
    ensures
        r == is_short_text(option@),
{
    is_option(option) && !is_long_option(option)
}

impl ApiList {
    pub fn new() -> (r: ApiList)
        ensures
            list_state(r) == ApiState::List(Seq::empty(), false, false, false),
    {
        let r = ApiList { queries: Vec::new(), explicit: false, dependency: false, required_by: false };
        assert(views(r.queries@) =~= Seq::<Seq<char>>::empty());
        r
    }

    pub fn add_option(self, option: String) -> (r: Result<Api, ArgError>)
        ensures
            match r {
                Ok(a) => list_step(views(self.queries@), self.explicit, self.dependency, self.required_by, option@)
                    == Ok::<ApiState, ArgFault>(api_state(a)),
                Err(e) => list_step(views(self.queries@), self.explicit, self.dependency, self.required_by, option@)
                    == Err::<ApiState, ArgFault>(fault(e)),
            },
    {
        let mut l = self;
        if text_is(option.as_str(), "--help") {
            Ok(Api::HelpWith(String::from_str("--list")))
        } else if text_is(option.as_str(), "--explicit") {
            if !l.explicit {
                l.explicit = true;
                Ok(Api::List(l))
            } else {
                Err(ArgError::DuplicateOption(option))
            }
        } else if text_is(option.as_str(), "--dependency") {
            if !l.dependency {
                l.dependency = true;
                Ok(Api::List(l))
            } else {
                Err(ArgError::DuplicateOption(option))
            }
        } else if text_is(option.as_str(), "--required-by") {
            if !l.required_by {
                l.required_by = true;
                Ok(Api::List(l))
            } else {
                Err(ArgError::DuplicateOption(option))
            }
        } else if !is_option(option.as_str()) {
            let ghost q = views(l.queries@);
            let ghost o = option@;
            l.queries.push(option);
            assert(views(l.queries@) =~= q.push(o));
            Ok(Api::List(l))
        } else {
            Err(ArgError::UnknownOption(option))
        }
    }

    pub fn apply_defaults(self) -> (r: ApiList)
        ensures
            r.queries == self.queries,
            r.required_by == self.required_by,
            self.explicit == self.dependency ==> r.explicit && r.dependency,
            self.explicit != self.dependency ==> r.explicit == self.explicit && r.dependency
                == self.dependency,
    {
        let mut l = self;
        if l.explicit == l.dependency {
            l.explicit = true;
            l.dependency = true;
        }
        l
    }
}

impl Api {
    pub fn add_option(self, opt: String) -> (r: Result<Api, ArgError>)
        ensures
            match r {
                Ok(a) => api_step(api_state(self), opt@) == Ok::<ApiState, ArgFault>(api_state(a)),
                Err(e) => api_step(api_state(self), opt@) == Err::<ApiState, ArgFault>(fault(e)),
            },
    {
        match self {
            Api::Help => Ok(Api::Help),
            Api::HelpWith(s) => Ok(Api::HelpWith(s)),
            Api::Empty => {
                if text_is(opt.as_str(), "--list") {
                    Ok(Api::List(ApiList::new()))
                } else if text_is(opt.as_str(), "--help") {
                    Ok(Api::Help)
                } else {
                    Err(ArgError::UnknownOption(opt))
                }
            },
            Api::List(list) => list.add_option(opt),
        }
    }

    pub fn apply_defaults(self) -> (r: Api)
        ensures
            with_defaults(CliState { api: api_state(self), verbose: false, color: false, format: None }).api
                == api_state(r),
    {
        match self {
            Api::List(list) => Api::List(list.apply_defaults()),
            other => other,
        }
    }
}

/// The long option that a one-letter option stands for.
pub open spec fn long_of_short(s: Seq<char>) -> Option<Seq<char>> {
    if s == "-c"@ {
        Some("--color"@)
    } else if s == "-h"@ {
        Some("--help"@)
    } else if s == "-v"@ {
        Some("--verbose"@)
    } else if s == "-L"@ {
        Some("--list"@)
    } else if s == "-e"@ {
        Some("--explicit"@)
    } else if s == "-d"@ {
        Some("--dependency"@)
    } else if s == "-r"@ {
        Some("--required-by"@)
    } else {
        None
    }
}

/// A bundle `-abc` becomes `-a`, `-b`, `-c`; other arguments stay as they are.
pub open spec fn split_one(s: Seq<char>) -> Seq<Seq<char>> {
    if is_short_text(s) {
        Seq::new((s.len() - 1) as nat, |i: int| "-"@ + s.subrange(i + 1, i + 2))
    } else {
        seq![s]
    }
}

pub open spec fn split_all(ss: Seq<Seq<char>>) -> Seq<Seq<char>>
    decreases ss.len(),
{
    if ss.len() == 0 {
        Seq::empty()
    } else {
        split_all(ss.drop_last()) + split_one(ss.last())
    }
}

/// A one-letter option becomes its long form; an unknown one is an error.
pub open spec fn expand_one(s: Seq<char>) -> Result<Seq<char>, ArgFault> {
    if !is_short_text(s) {
        Ok(s)
    } else {
        match long_of_short(s) {
            Some(l) => Ok(l),
            None => Err(ArgFault::Unknown(s)),
        }
    }
}

pub open spec fn text_result(r: Result<String, ArgError>) -> Result<Seq<char>, ArgFault> {
    match r {
        Ok(s) => Ok(s@),
        Err(e) => Err(fault(e)),
    }
}

/// The state after the arguments `opts`, from the start; the first error stops it.
pub open spec fn run_args(opts: Seq<Result<Seq<char>, ArgFault>>) -> Result<CliState, ArgFault>
    decreases opts.len(),
{
    if opts.len() == 0 {
        Ok(initial_state())
    } else {
        match run_args(opts.drop_last()) {
            Err(e) => Err(e),
            Ok(st) => match opts.last() {
                Err(e) => Err(e),
                Ok(o) => cli_step(st, o),
            },
        }
    }
}

/// The arguments once bundles are split and one-letter options expanded.
pub open spec fn expanded(args: Seq<Seq<char>>) -> Seq<Result<Seq<char>, ArgFault>> {
    split_all(args).map_values(|s: Seq<char>| expand_one(s))
}

/// What a whole command line parses to.
pub open spec fn parsed_args(args: Seq<Seq<char>>) -> Result<CliState, ArgFault> {
    match run_args(expanded(args)) {
        Ok(st) => Ok(with_defaults(st)),
        Err(e) => Err(e),
    }
}

pub fn split_short(options: Vec<String>) -> (r: Vec<String>)
    ensures
        views(r@) == split_all(views(options@)),
{
    let mut out: Vec<String> = Vec::new();
    let mut k: usize = 0;
    while k < options.len()
        invariant
            k <= options@.len(),
            views(out@) == split_all(views(options@).take(k as int)),
        decreases options@.len() - k,
    {
        let o = options[k].as_str();
        assert(views(options@).take(k + 1).drop_last() =~= views(options@).take(k as int));
        assert(views(options@).take(k + 1).last() == o@);
        let ghost start = views(out@);
        if !is_short_option(o) {
            out.push(options[k].clone());
            assert(views(out@) =~= start + split_one(o@));
        } else {
            let n = o.unicode_len();
            let mut i: usize = 1;
            while i < n
                invariant
                    1 <= i <= n,
                    n == o@.len(),
                    is_short_text(o@),
                    views(out@) == start + split_one(o@).take(i - 1),
                decreases n - i,
            {
                let ghost before = views(out@);
                let mut piece = String::from_str("-");
                piece.append(o.substring_char(i, i + 1));
                out.push(piece);
                assert(views(out@) =~= before.push(piece@));
                assert(split_one(o@).take(i as int) =~= split_one(o@).take(i - 1).push(split_one(o@)[i - 1]));
                i += 1;
            }
            assert(split_one(o@).take(n - 1) =~= split_one(o@));
        }
        k += 1;
    }
    assert(views(options@).take(k as int) =~= views(options@));
    out
}

fn expand_one_exec(option: String) -> (r: Result<String, ArgError>)
    ensures
        text_result(r) == expand_one(option@),
{
    if !is_short_option(option.as_str()) {
        return Ok(option);
    }
    let o = option.as_str();
    if text_is(o, "-c") {
        Ok(String::from_str("--color"))
    } else if text_is(o, "-h") {
        Ok(String::from_str("--help"))
    } else if text_is(o, "-v") {
        Ok(String::from_str("--verbose"))
    } else if text_is(o, "-L") {
        Ok(String::from_str("--list"))
    } else if text_is(o, "-e") {
        Ok(String::from_str("--explicit"))
    } else if text_is(o, "-d") {
        Ok(String::from_str("--dependency"))
    } else if text_is(o, "-r") {
        Ok(String::from_str("--required-by"))
    } else {
        Err(ArgError::UnknownOption(option))
    }
}

/// Each one-letter option in its long form, or the error for an unknown one.
pub fn expand_short(options: Vec<String>) -> (r: Vec<Result<String, ArgError>>)
    ensures
        r@.map_values(|x: Result<String, ArgError>| text_result(x)) == views(options@).map_values(
            |s: Seq<char>| expand_one(s),
        ),
{
    let mut out: Vec<Result<String, ArgError>> = Vec::new();
    let mut rest = options;
    let ghost all = views(rest@);
    let n = rest.len();
    let mut k: usize = 0;
    while k < n
        invariant
            k <= n,
            n == all.len(),
            views(rest@) == all.skip(k as int),
            rest@.len() == n - k,
            out@.map_values(|x: Result<String, ArgError>| text_result(x)) == all.take(k as int).map_values(
                |s: Seq<char>| expand_one(s),
            ),
        decreases n - k,
    {
        let ghost before = out@.map_values(|x: Result<String, ArgError>| text_result(x));
        let ghost rest0 = views(rest@);
        assert(rest0[0] == all[k as int]);
        let o = rest.remove(0);
        assert(o@ == all[k as int]);
        out.push(expand_one_exec(o));
        assert(views(rest@) =~= rest0.skip(1));
        assert(views(rest@) =~= all.skip(k + 1));
        assert(out@.map_values(|x: Result<String, ArgError>| text_result(x)) =~= before.push(expand_one(all[k as int])));
        assert(all.take(k + 1).map_values(|s: Seq<char>| expand_one(s)) =~= all.take(k as int).map_values(
            |s: Seq<char>| expand_one(s),
        ).push(expand_one(all[k as int])));
        k += 1;
    }
    assert(all.take(n as int) =~= all);
    out
}

impl Default for CommonOptions {
    fn default() -> (r: CommonOptions)
        ensures
            !r.verbose && !r.color && r.format is None,
    {
        CommonOptions { verbose: false, color: false, format: None }
    }
}

/// The command and common options gathered from the arguments so far.
#[derive(Debug)]
pub struct CliOptions {
    pub api: Api,
    pub common: CommonOptions,
}

/// Where `opt` is `--format=VALUE`, the place of its `=`.
fn format_split(opt: &str) -> (r: Option<usize>)
    ensures
        match r {
            Some(c) => format_at(opt@, c as int),
            None => !is_format_text(opt@),
        },
{
    let n = opt.unicode_len();
    let mut i: usize = 0;
    while i < n && opt.get_char(i) != '='
        invariant
            i <= n,
            n == opt@.len(),
            forall|j: int| 0 <= j < i ==> opt@[j] != '=',
        decreases n - i,
    {
        i += 1;
    }
    proof {
        assert forall|c: int| #[trigger] format_at(opt@, c) implies c == i by {
            if c < i {
            } else if c > i {
                assert(opt@[i as int] != '=');
            }
        }
    }
    if i == n {
        return None;
    }
    let prefix = opt.substring_char(0, i);
    assert(prefix@ =~= opt@.take(i as int));
    if text_is(prefix, "--format") {
        Some(i)
    } else {
        None
    }
}

impl CliOptions {
    pub open spec fn state(&self) -> CliState {
        cli_state(self.api, self.common)
    }

    pub fn new() -> (r: CliOptions)
        ensures
            r.state() == initial_state(),
    {
        CliOptions { api: Api::Empty, common: CommonOptions::default() }
    }

    pub fn add_option(self, option: String) -> (r: Result<CliOptions, ArgError>)
        ensures
            match r {
                Ok(c) => cli_step(self.state(), option@) == Ok::<CliState, ArgFault>(c.state()),
                Err(e) => cli_step(self.state(), option@) == Err::<CliState, ArgFault>(fault(e)),
            },
    {
        let mut cli = self;
        match format_split(option.as_str()) {
            Some(c) => {
                assert(c == choose|c: int| format_at(option@, c)) by {
                    let d = choose|d: int| format_at(option@, d);
                    if d < c {
                        assert(option@[d] == '=');
                    } else if d > c {
                        assert(option@[c as int] == '=');
                    }
                }
                let len = option.unicode_len();
                let prefix = option.as_str().substring_char(0, c);
                let value = option.as_str().substring_char(c + 1, len);
                assert(prefix@ =~= option@.take(c as int));
                assert(value@ =~= option@.skip(c + 1));
                if cli.common.format.is_none() {
                    cli.common.format = Some(String::from_str(value));
                    return Ok(cli);
                } else {
                    return Err(ArgError::DuplicateOption(String::from_str(prefix)));
                }
            },
            None => {},
        }
        if text_is(option.as_str(), "--verbose") {
            if !cli.common.verbose {
                cli.common.verbose = true;
                Ok(cli)
            } else {
                Err(ArgError::DuplicateOption(option))
            }
        } else if text_is(option.as_str(), "--color") {
            if !cli.common.color {
                cli.common.color = true;
                Ok(cli)
            } else {
                Err(ArgError::DuplicateOption(option))
            }
        } else {
            let common = cli.common;
            match cli.api.add_option(option) {
                Ok(api) => Ok(CliOptions { api, common }),
                Err(e) => Err(e),
            }
        }
    }

    pub fn apply_defaults(self) -> (r: CliOptions)
        ensures
            r.state() == with_defaults(self.state()),
    {
        let common = self.common;
        let api = self.api.apply_defaults();
        CliOptions { api, common }
    }
}

/// Parses the command line (without the program name): one-letter bundles are
/// split, one-letter options put in their long form, and the arguments applied
/// in order; the first error is returned.
pub fn parse_args(args: Vec<String>) -> (r: Result<(Api, CommonOptions), ArgError>)
    ensures
        match r {
            Ok((api, common)) => parsed_args(views(args@)) == Ok::<CliState, ArgFault>(cli_state(api, common)),
            Err(e) => parsed_args(views(args@)) == Err::<CliState, ArgFault>(fault(e)),
        },
{
    let opts = expand_short(split_short(args));
    let ghost all = expanded(views(args@));
    assert(opts@.map_values(|x: Result<String, ArgError>| text_result(x)) =~= all);
    let mut cli = CliOptions::new();
    let n = opts.len();
    let mut rest = opts;
    let mut k: usize = 0;
    assert(all.take(0) =~= Seq::<Result<Seq<char>, ArgFault>>::empty());
    while k < n
        invariant
            k <= n,
            n == all.len(),
            all == expanded(views(args@)),
            rest@.len() == n - k,
            rest@.map_values(|x: Result<String, ArgError>| text_result(x)) == all.skip(k as int),
            run_args(all.take(k as int)) == Ok::<CliState, ArgFault>(cli.state()),
        decreases n - k,
    {
        let ghost rest0 = rest@.map_values(|x: Result<String, ArgError>| text_result(x));
        assert(rest0[0] == all[k as int]);
        let next = rest.remove(0);
        assert(rest@.map_values(|x: Result<String, ArgError>| text_result(x)) =~= rest0.skip(1));
        assert(rest@.map_values(|x: Result<String, ArgError>| text_result(x)) =~= all.skip(k + 1));
        assert(all.take(k + 1).drop_last() =~= all.take(k as int));
        assert(all.take(k + 1).last() == all[k as int]);
        assert(text_result(next) == all[k as int]);
        match next {
            Ok(o) => {
                match cli.add_option(o) {
                    Ok(c) => {
                        cli = c;
                    },
                    Err(e) => {
                        assert(run_args(all.take(k + 1)) == Err::<CliState, ArgFault>(fault(e)));
                        proof {
                            lemma_run_stops(all, k as int + 1);
                        }
                        assert(parsed_args(views(args@)) == Err::<CliState, ArgFault>(fault(e)));
                        return Err(e);
                    },
                }
            },
            Err(e) => {
                assert(run_args(all.take(k + 1)) == Err::<CliState, ArgFault>(fault(e)));
                proof {
                    lemma_run_stops(all, k as int + 1);
                }
                assert(run_args(all) == Err::<CliState, ArgFault>(fault(e)));
                assert(parsed_args(views(args@)) == Err::<CliState, ArgFault>(fault(e)));
                return Err(e);
            },
        }
        k += 1;
    }
    assert(all.take(n as int) =~= all);
    let done = cli.apply_defaults();
    Ok((done.api, done.common))
}

/// Once the arguments fail, the rest leave the error as it is.
proof fn lemma_run_stops(all: Seq<Result<Seq<char>, ArgFault>>, k: int)
    requires
        0 <= k <= all.len(),
        run_args(all.take(k)) is Err,
    ensures
        run_args(all) == run_args(all.take(k)),
    decreases all.len() - k,
{
    if k < all.len() {
        assert(all.take(k + 1).drop_last() =~= all.take(k));
        lemma_run_stops(all, k + 1);
    } else {
        assert(all.take(k) =~= all);
    }
}

} // verus!
