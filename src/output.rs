use vstd::prelude::*;
use vstd::string::*;
use crate::package::{PackageReason, PackageRecord};

verus! {

/// One step of a compiled template, as a mathematical value.
pub enum Piece {
    Text(Seq<char>),
    Name,
    Summary,
    Reason,
    Version,
}

/// How a window of template text classifies.
pub enum Scan {
    Invalid,
    NeedMore,
    Correct(Piece),
}

/// One step of a compiled template.
#[derive(Debug)]
pub enum FormatOp {
    Text(String),
    Name,
    Summary,
    Reason,
    Version,
}

/// What the scanner makes of the window of template text it has looked at.
#[derive(Debug)]
pub enum ParseStatus {
    /// No directive can start this way.
    Invalid,
    /// The window is a prefix of a possible directive.
    NeedMore,
    /// The window is one whole step.
    Correct(FormatOp),
}

pub open spec fn piece_of(op: FormatOp) -> Piece {
    match op {
        FormatOp::Text(s) => Piece::Text(s@),
        FormatOp::Name => Piece::Name,
        FormatOp::Summary => Piece::Summary,
        FormatOp::Reason => Piece::Reason,
        FormatOp::Version => Piece::Version,
    }
}

pub open spec fn scan_of(s: ParseStatus) -> Scan {
    match s {
        ParseStatus::Invalid => Scan::Invalid,
        ParseStatus::NeedMore => Scan::NeedMore,
        ParseStatus::Correct(op) => Scan::Correct(piece_of(op)),
    }
}

/// The letters of the four field directives.
pub open spec fn is_directive(c: char) -> bool {
    c == 'n' || c == 's' || c == 'r' || c == 'v'
}

pub open spec fn directive(c: char) -> Piece {
    if c == 'n' {
        Piece::Name
    } else if c == 's' {
        Piece::Summary
    } else if c == 'r' {
        Piece::Reason
    } else {
        Piece::Version
    }
}

/// How the scanner classifies a window `w` of template text.
pub open spec fn classify(w: Seq<char>) -> Scan {
    if w.len() == 0 {
        Scan::NeedMore
    } else if w[0] != '%' {
        Scan::Correct(Piece::Text(w))
    } else if w.len() == 1 {
        Scan::NeedMore
    } else if w.len() == 2 && w[1] == '%' {
        Scan::Correct(Piece::Text(seq!['%']))
    } else if w.len() == 2 && is_directive(w[1]) {
        Scan::Correct(directive(w[1]))
    } else if w.len() == 4 && w[1] == '{' && is_directive(w[2]) && w[3] == '}' {
        Scan::Correct(directive(w[2]))
    } else if w[1] == '{' {
        if w.len() > 2 && w[w.len() - 1] == '}' {
            Scan::Invalid
        } else {
            Scan::NeedMore
        }
    } else {
        Scan::Invalid
    }
}

/// `t` is a sequence of tokens: a character other than `%`, `%%`, `%c` or `%{c}`
/// where `c` is one of the directive letters.
pub open spec fn template_ok(t: Seq<char>) -> bool
    decreases t.len(),
{
    if t.len() == 0 {
        true
    } else if t[0] != '%' {
        template_ok(t.skip(1))
    } else if t.len() >= 2 && (t[1] == '%' || is_directive(t[1])) {
        template_ok(t.skip(2))
    } else if t.len() >= 4 && t[1] == '{' && is_directive(t[2]) && t[3] == '}' {
        template_ok(t.skip(4))
    } else {
        false
    }
}

pub open spec fn prepend(ps: Seq<Piece>, o: Option<Seq<Piece>>) -> Option<Seq<Piece>> {
    match o {
        Some(s) => Some(ps + s),
        None => None,
    }
}

/// The steps that a template compiles to, one per token; none where it is not
/// `template_ok`.
pub open spec fn compile_spec(t: Seq<char>) -> Option<Seq<Piece>>
    decreases t.len(),
{
    if t.len() == 0 {
        Some(Seq::empty())
    } else if t[0] != '%' {
        prepend(seq![Piece::Text(seq![t[0]])], compile_spec(t.skip(1)))
    } else if t.len() >= 2 && t[1] == '%' {
        prepend(seq![Piece::Text(seq!['%'])], compile_spec(t.skip(2)))
    } else if t.len() >= 2 && is_directive(t[1]) {
        prepend(seq![directive(t[1])], compile_spec(t.skip(2)))
    } else if t.len() >= 4 && t[1] == '{' && is_directive(t[2]) && t[3] == '}' {
        prepend(seq![directive(t[2])], compile_spec(t.skip(4)))
    } else {
        None
    }
}

pub proof fn lemma_compiles_iff_ok(t: Seq<char>)
    ensures
        compile_spec(t) is Some <==> template_ok(t),
    decreases t.len(),
{
    if t.len() > 0 {
        lemma_compiles_iff_ok(t.skip(1));
        if t.len() >= 2 {
            lemma_compiles_iff_ok(t.skip(2));
        }
        if t.len() >= 4 {
            lemma_compiles_iff_ok(t.skip(4));
        }
    }
}

/// A window that the scanner keeps widening: empty, a lone `%`, or an open
/// `%{` with no closing brace yet.
pub open spec fn pending(w: Seq<char>) -> bool {
    w.len() == 0 || (w.len() == 1 && w[0] == '%') || (w.len() >= 2 && w[0] == '%' && w[1] == '{'
        && forall|i: int| 2 <= i < w.len() ==> w[i] != '}')
}

/// Widening a pending window by one character either keeps it pending, or
/// settles the compilation of the rest.
pub proof fn lemma_widen(rest: Seq<char>, k: int)
    requires
        0 <= k < rest.len(),
        pending(rest.take(k)),
    ensures
        match classify(rest.take(k + 1)) {
            Scan::NeedMore => pending(rest.take(k + 1)),
            Scan::Invalid => compile_spec(rest) is None,
            Scan::Correct(p) => compile_spec(rest) == prepend(seq![p], compile_spec(rest.skip(k + 1))),
        },
{
    let w = rest.take(k + 1);
    assert(forall|i: int| 0 <= i < k ==> rest.take(k)[i] == rest[i]);
    if k == 0 {
        assert(w =~= seq![rest[0]]);
    } else if k == 1 {
        assert(rest[0] == '%');
    } else {
        assert(rest[0] == '%' && rest[1] == '{');
        if k >= 4 {
            assert(rest.take(k)[3] != '}');
        }
    }
}

/// A pending window that has reached the end of the text leaves it uncompilable.
pub proof fn lemma_exhausted(rest: Seq<char>)
    requires
        rest.len() > 0,
        pending(rest),
    ensures
        compile_spec(rest) is None,
{
    if rest.len() >= 4 {
        assert(rest[3] != '}');
    }
}

fn directive_op(c: char) -> (r: Option<FormatOp>)
    ensures
        match r {
            Some(op) => is_directive(c) && piece_of(op) == directive(c),
            None => !is_directive(c),
        },
{
    if c == 'n' {
        Some(FormatOp::Name)
    } else if c == 's' {
        Some(FormatOp::Summary)
    } else if c == 'r' {
        Some(FormatOp::Reason)
    } else if c == 'v' {
        Some(FormatOp::Version)
    } else {
        None
    }
}

impl FormatOp {
    /// Classifies a window of template text.
    pub fn parse_token_slice(tokens: &str) -> (r: ParseStatus)
        ensures
            scan_of(r) == classify(tokens@),
    {
        let n = tokens.unicode_len();
        if n == 0 {
            return ParseStatus::NeedMore;
        }
        let c0 = tokens.get_char(0);
        if c0 != '%' {
            return ParseStatus::Correct(FormatOp::Text(String::from_str(tokens)));
        }
        if n == 1 {
            return ParseStatus::NeedMore;
        }
        let c1 = tokens.get_char(1);
        if n == 2 && c1 == '%' {
            let s = String::from_str("%");
            proof {
                reveal_strlit("%");
            }
            assert(s@ =~= seq!['%']);
            return ParseStatus::Correct(FormatOp::Text(s));
        }
        if n == 2 {
            if let Some(op) = directive_op(c1) {
                return ParseStatus::Correct(op);
            }
        }
        if n == 4 && c1 == '{' && tokens.get_char(3) == '}' {
            if let Some(op) = directive_op(tokens.get_char(2)) {
                return ParseStatus::Correct(op);
            }
        }
        if c1 == '{' {
            if n > 2 && tokens.get_char(n - 1) == '}' {
                ParseStatus::Invalid
            } else {
                ParseStatus::NeedMore
            }
        } else {
            ParseStatus::Invalid
        }
    }
}

/// A template compiled into the steps that render one package record as one line.
#[derive(Debug)]
pub struct CompiledFormat(Vec<FormatOp>);

impl View for CompiledFormat {
    type V = Seq<Piece>;

    closed spec fn view(&self) -> Seq<Piece> {
        self.0@.map_values(|op: FormatOp| piece_of(op))
    }
}

/// What one step writes for a record.
pub open spec fn piece_text(p: Piece, rec: PackageRecord) -> Seq<char> {
    match p {
        Piece::Text(s) => s,
        Piece::Name => rec.name@,
        Piece::Summary => match rec.desc {
            Some(d) => d@,
            None => Seq::empty(),
        },
        Piece::Reason => match rec.reason {
            PackageReason::Explicit => "Explicit"@,
            PackageReason::Depend => "Depend"@,
        },
        Piece::Version => rec.version@,
    }
}

/// The line that the steps `ps` write for a record: each step's text, in order.
pub open spec fn render(ps: Seq<Piece>, rec: PackageRecord) -> Seq<char>
    decreases ps.len(),
{
    if ps.len() == 0 {
        Seq::empty()
    } else {
        render(ps.drop_last(), rec) + piece_text(ps.last(), rec)
    }
}

impl CompiledFormat {
    /// Compiles a template; none where it holds a `%` that starts no directive,
    /// or a `%{` left open at its end.
    pub fn compile(text: &str) -> (r: Option<CompiledFormat>)
        ensures
            r is Some <==> template_ok(text@),
            match r {
                Some(f) => compile_spec(text@) == Some(f@),
                None => compile_spec(text@) is None,
            },
    {
        proof {
            lemma_compiles_iff_ok(text@);
        }
        let len = text.unicode_len();
        let mut start: usize = 0;
        let mut end: usize = 0;
        let mut parts: Vec<FormatOp> = Vec::new();
        assert(text@.skip(0) =~= text@);
        assert(parts@.map_values(|op: FormatOp| piece_of(op)) =~= Seq::<Piece>::empty());
        while start < len
            invariant
                len == text@.len(),
                start <= end <= len,
                pending(text@.subrange(start as int, end as int)),
                compile_spec(text@) is Some <==> template_ok(text@),
                compile_spec(text@) == prepend(
                    parts@.map_values(|op: FormatOp| piece_of(op)),
                    compile_spec(text@.skip(start as int)),
                ),
            decreases 2 * len - start - end,
        {
            let ghost rest = text@.skip(start as int);
            let ghost k = end - start;
            assert(rest.take(k) =~= text@.subrange(start as int, end as int));
            if end == len {
                assert(rest =~= rest.take(k));
                proof {
                    lemma_exhausted(rest);
                }
                assert(compile_spec(text@) is None);
                return None;
            }
            let window = text.substring_char(start, end + 1);
            assert(window@ =~= rest.take(k + 1));
            proof {
                lemma_widen(rest, k);
            }
            match FormatOp::parse_token_slice(window) {
                ParseStatus::NeedMore => {
                    end += 1;
                    assert(rest.take(k + 1) =~= text@.subrange(start as int, end as int));
                },
                ParseStatus::Invalid => {
                    assert(compile_spec(rest) is None);
                    assert(compile_spec(text@) is None);
                    return None;
                },
                ParseStatus::Correct(op) => {
                    let ghost before = parts@.map_values(|op: FormatOp| piece_of(op));
                    let ghost p = piece_of(op);
                    parts.push(op);
                    assert(parts@.map_values(|op: FormatOp| piece_of(op)) =~= before.push(p));
                    assert(rest.skip(k + 1) =~= text@.skip(end + 1));
                    assert(before + (seq![p] + compile_spec(text@.skip(end + 1))->0) =~= before.push(p)
                        + compile_spec(text@.skip(end + 1))->0);
                    end += 1;
                    start = end;
                    assert(text@.subrange(start as int, end as int) =~= Seq::<char>::empty());
                },
            }
        }
        assert(text@.skip(start as int) =~= Seq::<char>::empty());
        assert(parts@.map_values(|op: FormatOp| piece_of(op)) + Seq::<Piece>::empty()
            =~= parts@.map_values(|op: FormatOp| piece_of(op)));
        Some(CompiledFormat(parts))
    }

    /// The format used where no template is given: the package name alone.
    pub fn name_only() -> (r: CompiledFormat)
        ensures
            r@ == seq![Piece::Name],
    {
        let r = CompiledFormat(vec![FormatOp::Name]);
        assert(r@ =~= seq![Piece::Name]);
        r
    }

    /// Renders `rec` as one line.
    pub fn display(&self, rec: &PackageRecord) -> (r: String)
        ensures
            r@ == render(self@, *rec),
    {
        let mut output = String::new();
        let mut i: usize = 0;
        while i < self.0.len()
            invariant
                i <= self@.len(),
                self@.len() == self.0@.len(),
                output@ == render(self@.take(i as int), *rec),
            decreases self@.len() - i,
        {
            assert(self@.take(i + 1).drop_last() =~= self@.take(i as int));
            assert(self@.take(i + 1).last() == piece_of(self.0@[i as int]));
            let ghost before = output@;
            match &self.0[i] {
                FormatOp::Text(s) => output.append(s.as_str()),
                FormatOp::Name => output.append(rec.name.as_str()),
                FormatOp::Summary => match &rec.desc {
                    Some(d) => output.append(d.as_str()),
                    None => {
                        proof {
                            reveal_strlit("");
                        }
                        output.append("")
                    },
                },
                FormatOp::Reason => match rec.reason {
                    PackageReason::Explicit => output.append("Explicit"),
                    PackageReason::Depend => output.append("Depend"),
                },
                FormatOp::Version => output.append(rec.version.as_str()),
            }
            assert(output@ =~= before + piece_text(self@[i as int], *rec));
            i += 1;
        }
        assert(self@.take(i as int) =~= self@);
        output
    }
}

impl Default for CompiledFormat {
    fn default() -> (r: CompiledFormat)
        ensures
            r@ == seq![Piece::Name],
    {
        CompiledFormat::name_only()
    }
}

} // verus!
