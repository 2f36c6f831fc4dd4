use vstd::prelude::*;
use vstd::string::*;

verus! {

/// Why a query string was rejected.
#[derive(Debug)]
pub enum ParseError {
    /// The text before the first colon names a property that is not supported.
    InvalidProperty(String),
    /// The text before the first colon carries leading or trailing whitespace.
    SyntaxError,
}

/// A parsed package query.
#[derive(Debug)]
pub enum Query {
    PackageName(String),
}

/// The characters that Unicode classes as `White_Space`, which is what
/// `char::is_whitespace` and `str::trim` go by.
pub open spec fn white_space(c: char) -> bool {
    let u = c as u32;
    (0x9 <= u && u <= 0xd) || u == 0x20 || u == 0x85 || u == 0xa0 || u == 0x1680 || (0x2000 <= u
        && u <= 0x200a) || u == 0x2028 || u == 0x2029 || u == 0x202f || u == 0x205f || u == 0x3000
}

pub fn is_white_space(c: char) -> (r: bool)
    ensures
        r == white_space(c),
{
    let u = c as u32;
    (0x9 <= u && u <= 0xd) || u == 0x20 || u == 0x85 || u == 0xa0 || u == 0x1680 || (0x2000 <= u
        && u <= 0x200a) || u == 0x2028 || u == 0x2029 || u == 0x202f || u == 0x205f || u == 0x3000
}

/// `s` differs from its trimmed form: it starts or ends with whitespace.
pub open spec fn untrimmed(s: Seq<char>) -> bool {
    s.len() > 0 && (white_space(s[0]) || white_space(s[s.len() - 1]))
}

pub open spec fn colon_free(s: Seq<char>) -> bool {
    forall|i: int| 0 <= i < s.len() ==> s[i] != ':'
}

/// The first colon of `q` stands at `c`.
pub open spec fn first_colon_at(q: Seq<char>, c: int) -> bool {
    0 <= c < q.len() && q[c] == ':' && colon_free(q.take(c))
}

/// `q` asks for the package named `n`: it has no colon and is `n`, or the text
/// before its first colon is `package` and `n` follows that colon.
pub open spec fn query_name(q: Seq<char>, n: Seq<char>) -> bool {
    (colon_free(q) && n == q) || exists|c: int|
        #[trigger] first_colon_at(q, c) && q.take(c) == "package"@ && n == q.skip(c + 1)
}

/// `q` names a property other than `package` before its first colon.
pub open spec fn query_rejected(q: Seq<char>) -> bool {
    exists|c: int| #[trigger] first_colon_at(q, c) && q.take(c) != "package"@
}

/// The package name that `q` asks for, where it is not rejected.
pub open spec fn query_target(q: Seq<char>) -> Seq<char> {
    if colon_free(q) {
        q
    } else {
        q.skip((choose|c: int| first_colon_at(q, c)) + 1)
    }
}

/// How `q` is rejected with `e`, given the text around its first colon.
pub open spec fn rejected_with(q: Seq<char>, e: ParseError) -> bool {
    exists|c: int| #[trigger] first_colon_at(q, c) && parsed_property(q.take(c), q.skip(c + 1), Err(e))
}

pub proof fn lemma_first_colon_unique(q: Seq<char>, c: int, d: int)
    requires
        first_colon_at(q, c),
        first_colon_at(q, d),
    ensures
        c == d,
{
    if c < d {
        assert(q.take(d)[c] == ':');
    } else if d < c {
        assert(q.take(c)[d] == ':');
    }
}

pub open spec fn names_package(r: Result<Query, ParseError>, name: Seq<char>) -> bool {
    match r {
        Ok(Query::PackageName(n)) => n@ == name,
        _ => false,
    }
}

/// What a query with a property prefix parses to, given the text before and
/// after its first colon.
pub open spec fn parsed_property(prop: Seq<char>, value: Seq<char>, r: Result<Query, ParseError>) -> bool {
    if prop == "package"@ {
        names_package(r, value)
    } else if untrimmed(prop) {
        r matches Err(ParseError::SyntaxError)
    } else {
        match r {
            Err(ParseError::InvalidProperty(p)) => p@ == prop,
            _ => false,
        }
    }
}

impl Query {
    /// Parses `[property:]value`, splitting at the first colon only.
    pub fn parse(query: &str) -> (r: Result<Query, ParseError>)
        ensures
            colon_free(query@) ==> names_package(r, query@),
            forall|c: int|
                0 <= c < query@.len() && query@[c] == ':' && colon_free(#[trigger] query@.take(c))
                    ==> parsed_property(query@.take(c), query@.skip(c + 1), r),
            match r {
                Ok(Query::PackageName(n)) => query_name(query@, n@) && !query_rejected(query@) && n@
                    == query_target(query@),
                Err(e) => query_rejected(query@) && rejected_with(query@, e),
            },
    {
        let len = query.unicode_len();
        let mut i: usize = 0;
        while i < len && query.get_char(i) != ':'
            invariant
                i <= len,
                len == query@.len(),
                colon_free(query@.take(i as int)),
            decreases len - i,
        {
            assert(query@.take(i + 1) =~= query@.take(i as int).push(query@[i as int]));
            i += 1;
        }
        if i == len {
            assert(query@.take(i as int) =~= query@);
            assert forall|c: int| #[trigger] first_colon_at(query@, c) implies false by {
                assert(query@.take(i as int)[c] == ':');
            }
            return Ok(Query::PackageName(String::from_str(query)));
        }
        proof {
            assert forall|c: int|
                0 <= c < query@.len() && query@[c] == ':' && colon_free(#[trigger] query@.take(c))
                implies c == i by {
                if c < i {
                    assert(query@.take(i as int)[c] == ':');
                } else if c > i {
                    assert(query@.take(c)[i as int] == ':');
                }
            }
        }
        assert(first_colon_at(query@, i as int));
        proof {
            assert forall|c: int| #[trigger] first_colon_at(query@, c) implies c == i by {
                lemma_first_colon_unique(query@, c, i as int);
            }
        }
        assert(!colon_free(query@));
        assert(first_colon_at(query@, choose|c: int| first_colon_at(query@, c)));
        let prop = query.substring_char(0, i);
        let value = query.substring_char(i + 1, len);
        assert(prop@ =~= query@.take(i as int));
        assert(value@ =~= query@.skip(i + 1));
        let prop_text = String::from_str(prop);
        let package = String::from_str("package");
        if prop_text == package {
            Ok(Query::PackageName(String::from_str(value)))
        } else {
            let plen = prop.unicode_len();
            if plen > 0 && (is_white_space(prop.get_char(0)) || is_white_space(
                prop.get_char(plen - 1),
            )) {
                Err(ParseError::SyntaxError)
            } else {
                Err(ParseError::InvalidProperty(prop_text))
            }
        }
    }
}

impl ParseError {
    /// The one-line description of the error.
    pub fn message(&self) -> (r: String)
        ensures
            r@ == match self {
                ParseError::InvalidProperty(p) => "property not supported: "@ + p@,
                ParseError::SyntaxError => "invalid syntax"@,
            },
    {
        match self {
            ParseError::InvalidProperty(p) => {
                let mut s = String::from_str("property not supported: ");
                s.append(p.as_str());
                s
            },
            ParseError::SyntaxError => String::from_str("invalid syntax"),
        }
    }
}

} // verus!
