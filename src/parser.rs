//! Recursive-descent parser from tokens to a `Stub`.
use vstd::prelude::*;
use crate::ast::{
    cmds_view, strings_view, terms_view, vars_view, Cmd, CmdV, JoinTerm, Stub, StubV, TermV, VarType, VarV,
    VariableCommand,
};
use crate::text::{
chars_eq, contains_char, lemma_find_char_bounds, find_char, find_char_from, find_exec, find_from, join, join_chars,
    remove_all, remove_all_exec, rfind_char, rfind_char_before, slice_chars, split, split_chars,
    trim, trim_char, trim_char_exec, trim_chars, trim_end, trim_end_chars, views,
};
use crate::tokenizer::{chars_of, lines, lines_exec, newline, string_of, tokenize, tokens};

verus! {

/// Why a script could not be parsed. Each variant names what it stopped on.
#[derive(Debug)]
pub enum ParseError {
    /// A line starts with a word that is no command.
    UnknownToken(String),
    /// `loop` is not followed by a count.
    MissingLoopCount,
    /// `loopline` is not followed by a count.
    MissingLooplineCount,
    /// `loop <count>` is not followed by a command.
    MissingLoopBody,
    /// `loop <count>` is followed by a word that cannot be looped.
    InvalidLoopBody(String),
    /// A `read` or `loopline` has no variables on its line.
    EmptyVariableLine,
    /// A variable token without `:type`.
    MissingType(String),
    /// A variable token whose type is not understood.
    InvalidType(String),
}

pub enum ErrV {
    UnknownToken(Seq<char>),
    MissingLoopCount,
    MissingLooplineCount,
    MissingLoopBody,
    InvalidLoopBody(Seq<char>),
    EmptyVariableLine,
    MissingType(Seq<char>),
    InvalidType(Seq<char>),
}

impl View for ParseError {
    type V = ErrV;

    open spec fn view(&self) -> ErrV {
        match self {
            ParseError::UnknownToken(t) => ErrV::UnknownToken(t@),
            ParseError::MissingLoopCount => ErrV::MissingLoopCount,
            ParseError::MissingLooplineCount => ErrV::MissingLooplineCount,
            ParseError::MissingLoopBody => ErrV::MissingLoopBody,
            ParseError::InvalidLoopBody(t) => ErrV::InvalidLoopBody(t@),
            ParseError::EmptyVariableLine => ErrV::EmptyVariableLine,
            ParseError::MissingType(t) => ErrV::MissingType(t@),
            ParseError::InvalidType(t) => ErrV::InvalidType(t@),
        }
    }
}

pub uninterp spec fn regex_captures(pattern: Seq<char>, hay: Seq<char>) -> Option<Seq<Seq<char>>>;

/// Relies on `regex::Regex::new` and `regex::Regex::captures`: the groups of
/// the leftmost match of `pattern` in `hay` (a group that took no part is
/// empty), or `None` where the pattern does not compile or does not match.
#[verifier::external_body]
fn captures(pattern: &str, hay: &Vec<char>) -> (r: Option<Vec<Vec<char>>>)
    ensures
        match r {
            Some(g) => regex_captures(pattern@, hay@) == Some(views(g@)),
            None => regex_captures(pattern@, hay@) is None,
        },
{
    let hay: String = hay.iter().collect();
    let re = regex::Regex::new(pattern).ok()?;
    let caps = re.captures(&hay)?;
    Some(caps.iter().map(|m| m.map_or(Vec::new(), |m| m.as_str().chars().collect())).collect())
}

/// Shape of a sized type: `word(<len>)` or `string(<len>)`.
pub open spec fn length_pattern() -> Seq<char> {
    "(word|string)\\((\\w+)\\)"@
}

pub open spec fn is_nl(t: Seq<char>) -> bool {
    t == newline()
}

pub open spec fn space() -> Seq<char> {
    seq![' ']
}

pub open spec fn all_empty(b: Seq<Seq<char>>) -> bool {
    forall|i: int| 0 <= i < b.len() ==> #[trigger] b[i].len() == 0
}

/// The tokens from `p` up to the next newline token, and the position after it.
pub open spec fn upto(ts: Seq<Seq<char>>, p: int) -> (Seq<Seq<char>>, int)
    decreases ts.len() - p,
{
    if p < 0 || p >= ts.len() {
        (Seq::empty(), p)
    } else if is_nl(ts[p]) {
        (Seq::empty(), p + 1)
    } else {
        let r = upto(ts, p + 1);
        (seq![ts[p]] + r.0, r.1)
    }
}

/// A line of tokens as text: the fields joined by one space, trimmed.
pub open spec fn line_text(b: Seq<Seq<char>>) -> Seq<char> {
    trim(join(b, space()))
}

/// The position after the next newline token at or after `p`.
pub open spec fn skip_line(ts: Seq<Seq<char>>, p: int) -> int
    decreases ts.len() - p,
{
    if p < 0 || p >= ts.len() {
        p
    } else if is_nl(ts[p]) {
        p + 1
    } else {
        skip_line(ts, p + 1)
    }
}

/// The lines from `p` up to a line with nothing on it, and the position after that line.
pub open spec fn text_lines(ts: Seq<Seq<char>>, p: int) -> (Seq<Seq<char>>, int)
    decreases ts.len() - p,
{
    let (b, q) = upto(ts, p);
    if all_empty(b) || q <= p || q > ts.len() {
        (Seq::empty(), q)
    } else {
        let r = text_lines(ts, q);
        (seq![line_text(b)] + r.0, r.1)
    }
}

/// A free-text block: the rest of the keyword's line is skipped, the lines
/// that follow up to a blank one are joined by newlines.
pub open spec fn text_block(ts: Seq<Seq<char>>, p: int) -> (Seq<char>, int) {
    let (ls, q) = text_lines(ts, skip_line(ts, p));
    (join(ls, newline()), q)
}

/// The next token that is not empty, where a newline token lets the token
/// right after it through whatever it is.
pub open spec fn next_past_newline(ts: Seq<Seq<char>>, p: int) -> (Option<Seq<char>>, int)
    decreases ts.len() - p,
{
    if p < 0 || p >= ts.len() {
        (None, p)
    } else if is_nl(ts[p]) {
        if p + 1 < ts.len() {
            (Some(ts[p + 1]), p + 2)
        } else {
            (None, p + 1)
        }
    } else if ts[p].len() == 0 {
        next_past_newline(ts, p + 1)
    } else {
        (Some(ts[p]), p + 1)
    }
}

/// The second `:`-separated field of `tok`, where there is one.
pub open spec fn type_field(tok: Seq<char>) -> Seq<char> {
    let c = find_char_from(tok, ':', 0);
    let rest = tok.subrange(c + 1, tok.len() as int);
    let d = find_char_from(rest, ':', 0);
    if d == -1 {
        rest
    } else {
        rest.subrange(0, d)
    }
}

pub open spec fn plain_var(ident: Seq<char>, t: VarType) -> VarV {
    VarV { ident, var_type: t, max_length: None, input_comment: Seq::empty() }
}

/// The name part of an `ident:type` token.
pub open spec fn ident_of(tok: Seq<char>) -> Seq<char> {
    let c = find_char_from(tok, ':', 0);
    if c == -1 {
        tok
    } else {
        tok.subrange(0, c)
    }
}

/// A `word(<len>)` or `string(<len>)` variable from the groups that the
/// length pattern captured in the token's type; the match must cover the
/// whole type, else the type is not understood.
pub open spec fn sized_variable_of(tok: Seq<char>, groups: Option<Seq<Seq<char>>>) -> Result<
    VarV,
    ErrV,
> {
    match groups {
        Some(g) => if g.len() >= 3 && g[0] == type_field(tok) && (g[1] == "word"@ || g[1]
            == "string"@) {
            Ok(
                VarV {
                    ident: ident_of(tok),
                    var_type: if g[1] == "word"@ {
                        VarType::Word
                    } else {
                        VarType::String
                    },
                    max_length: Some(g[2]),
                    input_comment: Seq::empty(),
                },
            )
        } else {
            Err(ErrV::InvalidType(tok))
        },
        None => Err(ErrV::InvalidType(tok)),
    }
}

/// One `ident:type` token.
pub open spec fn variable(tok: Seq<char>) -> Result<VarV, ErrV> {
    let c = find_char_from(tok, ':', 0);
    let ident = tok.subrange(0, c);
    let ty = type_field(tok);
    let tt = trim_end(ty);
    if c == -1 {
        Err(ErrV::MissingType(tok))
    } else if tt == "int"@ {
        Ok(plain_var(ident, VarType::Int))
    } else if tt == "float"@ {
        Ok(plain_var(ident, VarType::Float))
    } else if tt == "long"@ {
        Ok(plain_var(ident, VarType::Long))
    } else if tt == "bool"@ {
        Ok(plain_var(ident, VarType::Bool))
    } else {
        sized_variable_of(tok, regex_captures(length_pattern(), ty))
    }
}

/// The variables of a line of tokens; empty tokens are skipped, the first bad
/// token is the error.
pub open spec fn variables_of(b: Seq<Seq<char>>) -> Result<Seq<VarV>, ErrV>
    decreases b.len(),
{
    if b.len() == 0 {
        Ok(Seq::empty())
    } else {
        match variables_of(b.drop_last()) {
            Err(e) => Err(e),
            Ok(vs) => if b.last().len() == 0 {
                Ok(vs)
            } else {
                match variable(b.last()) {
                    Err(e) => Err(e),
                    Ok(v) => Ok(vs.push(v)),
                }
            },
        }
    }
}

/// The variables on the line at `p`, and the position after that line.
pub open spec fn variables_line(ts: Seq<Seq<char>>, p: int) -> (Result<Seq<VarV>, ErrV>, int) {
    let (b, q) = upto(ts, p);
    if all_empty(b) {
        (Err(ErrV::EmptyVariableLine), q)
    } else {
        (variables_of(b), q)
    }
}

/// A term of `join(...)`: text between the first and the last quote, with
/// the quotes at its ends removed, or else a variable name.
pub open spec fn join_term(t: Seq<char>) -> TermV {
    if t.contains('"') {
        let f = find_char_from(t, '"', 0);
        let l = rfind_char_before(t, '"', t.len() as int);
        TermV::Literal(trim_char(t.subrange(f, l + 1), '"'))
    } else {
        TermV::Variable(trim(t))
    }
}

/// How the first line of a `write` block reads as a join: `None` where it is
/// no join (no `join(` other than `join()`, or no `)` after it); a plain write
/// of the line where a term is blank; else the join of its terms.
pub open spec fn write_join(line: Seq<char>) -> Option<CmdV> {
    let s = remove_all(line, "join()"@);
    let k = find_from(s, "join("@, 0);
    let arg = s.subrange(k + "join("@.len(), s.len() as int);
    let e = find_char_from(arg, ')', 0);
    let terms = split(arg.subrange(0, e), ',');
    if k == -1 || e == -1 {
        None
    } else if exists|i: int| 0 <= i < terms.len() && #[trigger] trim(terms[i]).len() == 0 {
        Some(CmdV::Write { lines: seq![line], output_comment: Seq::empty() })
    } else {
        Some(
            CmdV::WriteJoin {
                terms: terms.map_values(|t: Seq<char>| join_term(t)),
                output_comment: Seq::empty(),
            },
        )
    }
}

/// A `write` command whose lines start at `p`.
pub open spec fn write_cmd(ts: Seq<Seq<char>>, p: int) -> (CmdV, int) {
    let (b, q) = upto(ts, p);
    if all_empty(b) {
        (CmdV::Write { lines: Seq::empty(), output_comment: Seq::empty() }, q)
    } else {
        let line = line_text(b);
        match write_join(line) {
            Some(c) => (c, q),
            None => {
                let (r, q2) = text_lines(ts, q);
                (CmdV::Write { lines: seq![line] + r, output_comment: Seq::empty() }, q2)
            },
        }
    }
}

/// A `read` command whose variables start at `p`.
pub open spec fn read_cmd(ts: Seq<Seq<char>>, p: int) -> Result<(CmdV, int), ErrV> {
    match variables_line(ts, p) {
        (Ok(vs), q) => Ok((CmdV::Read(vs), q)),
        (Err(e), _) => Err(e),
    }
}

/// A `loopline` command whose count starts at `p`.
pub open spec fn loopline_cmd(ts: Seq<Seq<char>>, p: int) -> Result<(CmdV, int), ErrV> {
    match next_past_newline(ts, p) {
        (Some(c), q) => if is_nl(c) || c.len() == 0 {
            Err(ErrV::MissingLooplineCount)
        } else {
            match variables_line(ts, q) {
                (Ok(vs), r) => Ok((CmdV::LoopLine { count_var: c, variables: vs }, r)),
                (Err(e), _) => Err(e),
            }
        },
        (None, _) => Err(ErrV::MissingLooplineCount),
    }
}

/// A `loop` command whose count starts at `p`, with its one nested command.
pub open spec fn loop_cmd(ts: Seq<Seq<char>>, p: int) -> Result<(CmdV, int), ErrV>
    decreases ts.len() - p,
{
    match next_past_newline(ts, p) {
        (Some(c), q) => if is_nl(c) || c.len() == 0 || q <= p || q > ts.len() {
            Err(ErrV::MissingLoopCount)
        } else {
            match loopable(ts, q) {
                Ok((b, r)) => Ok((CmdV::Loop { count_var: c, command: Box::new(b) }, r)),
                Err(e) => Err(e),
            }
        },
        (None, _) => Err(ErrV::MissingLoopCount),
    }
}

/// The command nested in a loop, starting at `p`.
pub open spec fn loopable(ts: Seq<Seq<char>>, p: int) -> Result<(CmdV, int), ErrV>
    decreases ts.len() - p,
{
    match next_past_newline(ts, p) {
        (Some(k), q) => if is_nl(k) || q <= p || q > ts.len() {
            Err(ErrV::MissingLoopBody)
        } else if k == "read"@ {
            read_cmd(ts, q)
        } else if k == "write"@ {
            Ok(write_cmd(ts, q))
        } else if k == "loopline"@ {
            loopline_cmd(ts, q)
        } else if k == "loop"@ {
            loop_cmd(ts, q)
        } else {
            Err(ErrV::InvalidLoopBody(k))
        },
        (None, _) => Err(ErrV::MissingLoopBody),
    }
}

/// An `OUTPUT` comment given to a command: a write that has none takes it, a
/// loop hands it to its nested command, anything else is left as it is.
pub open spec fn with_output_comment(c: CmdV, comment: Seq<char>) -> CmdV
    decreases c,
{
    match c {
        CmdV::Write { lines, output_comment } => if output_comment.len() == 0 {
            CmdV::Write { lines, output_comment: comment }
        } else {
            c
        },
        CmdV::WriteJoin { terms, output_comment } => if output_comment.len() == 0 {
            CmdV::WriteJoin { terms, output_comment: comment }
        } else {
            c
        },
        CmdV::Loop { count_var, command } => CmdV::Loop {
            count_var,
            command: Box::new(with_output_comment(*command, comment)),
        },
        _ => c,
    }
}

pub open spec fn comment_var(v: VarV, ident: Seq<char>, comment: Seq<char>) -> VarV {
    if v.ident == ident {
        VarV { input_comment: comment, ..v }
    } else {
        v
    }
}

pub open spec fn comment_vars(vs: Seq<VarV>, ident: Seq<char>, comment: Seq<char>) -> Seq<VarV> {
    vs.map_values(|v: VarV| comment_var(v, ident, comment))
}

/// An `INPUT` comment for `ident` given to a command: every variable of that
/// name that it reads takes it, a loop hands it to its nested command.
pub open spec fn with_input_comment(c: CmdV, ident: Seq<char>, comment: Seq<char>) -> CmdV
    decreases c,
{
    match c {
        CmdV::Read(vs) => CmdV::Read(comment_vars(vs, ident, comment)),
        CmdV::LoopLine { count_var, variables } => CmdV::LoopLine {
            count_var,
            variables: comment_vars(variables, ident, comment),
        },
        CmdV::Loop { count_var, command } => CmdV::Loop {
            count_var,
            command: Box::new(with_input_comment(*command, ident, comment)),
        },
        _ => c,
    }
}

/// The `ident: comment` pairs of an `INPUT` block's lines, trimmed; a line
/// without `:` gives none.
pub open spec fn input_pairs(ls: Seq<Seq<char>>) -> Seq<(Seq<char>, Seq<char>)>
    decreases ls.len(),
{
    if ls.len() == 0 {
        Seq::empty()
    } else {
        let l = ls.last();
        let rest = input_pairs(ls.drop_last());
        let c = find_char_from(l, ':', 0);
        if c == -1 {
            rest
        } else {
            rest.push((trim(l.subrange(0, c)), trim(l.subrange(c + 1, l.len() as int))))
        }
    }
}

/// The commands once each pair, in order, is given to every one of them.
pub open spec fn apply_input(cmds: Seq<CmdV>, ps: Seq<(Seq<char>, Seq<char>)>) -> Seq<CmdV>
    decreases ps.len(),
{
    if ps.len() == 0 {
        cmds
    } else {
        apply_input(cmds, ps.drop_last()).map_values(
            |c: CmdV| with_input_comment(c, ps.last().0, ps.last().1),
        )
    }
}

pub open spec fn empty_stub() -> StubV {
    StubV { commands: Seq::empty(), statement: Seq::empty() }
}

pub open spec fn push_cmd(st: StubV, c: CmdV) -> StubV {
    StubV { commands: st.commands.push(c), ..st }
}

/// Appends a parsed command and goes on after it.
pub open spec fn then_cmd(ts: Seq<Seq<char>>, p: int, st: StubV, r: Result<(CmdV, int), ErrV>) -> Result<StubV, ErrV>
    decreases ts.len() - p, 0int,
{
    match r {
        Ok((c, q)) => if p < q <= ts.len() {
            parse_from(ts, q, push_cmd(st, c))
        } else {
            Ok(st)
        },
        Err(e) => Err(e),
    }
}

/// The top level of the grammar, from position `p` on, with `st` parsed so far.
pub open spec fn parse_from(ts: Seq<Seq<char>>, p: int, st: StubV) -> Result<StubV, ErrV>
    decreases ts.len() - p, 1int,
{
    if p < 0 || p >= ts.len() {
        Ok(st)
    } else {
        let t = ts[p];
        let q = p + 1;
        if t == "read"@ {
            then_cmd(ts, p, st, read_cmd(ts, q))
        } else if t == "write"@ {
            then_cmd(ts, p, st, Ok(write_cmd(ts, q)))
        } else if t == "loop"@ {
            then_cmd(ts, p, st, loop_cmd(ts, q))
        } else if t == "loopline"@ {
            then_cmd(ts, p, st, loopline_cmd(ts, q))
        } else if t == "OUTPUT"@ || t == "INPUT"@ || t == "STATEMENT"@ {
            let (txt, r) = text_block(ts, q);
            let next = if t == "OUTPUT"@ {
                StubV {
                    commands: st.commands.map_values(|c: CmdV| with_output_comment(c, txt)),
                    ..st
                }
            } else if t == "INPUT"@ {
                StubV { commands: apply_input(st.commands, input_pairs(lines(txt))), ..st }
            } else {
                StubV { statement: txt, ..st }
            };
            if p < r <= ts.len() {
                parse_from(ts, r, next)
            } else {
                Ok(st)
            }
        } else if is_nl(t) || t.len() == 0 {
            parse_from(ts, q, st)
        } else {
            Err(ErrV::UnknownToken(t))
        }
    }
}

/// What a whole script parses to.
pub open spec fn parse_script(script: Seq<char>) -> Result<StubV, ErrV> {
    parse_from(tokens(script), 0, empty_stub())
}

proof fn lemma_upto(ts: Seq<Seq<char>>, p: int)
    requires
        0 <= p <= ts.len(),
    ensures
        p <= upto(ts, p).1 <= ts.len(),
        p < ts.len() ==> p < upto(ts, p).1,
        p == ts.len() ==> upto(ts, p).0.len() == 0,
    decreases ts.len() - p,
{
    if p < ts.len() && !is_nl(ts[p]) {
        lemma_upto(ts, p + 1);
    }
}

proof fn lemma_skip_line(ts: Seq<Seq<char>>, p: int)
    requires
        0 <= p <= ts.len(),
    ensures
        p <= skip_line(ts, p) <= ts.len(),
    decreases ts.len() - p,
{
    if p < ts.len() && !is_nl(ts[p]) {
        lemma_skip_line(ts, p + 1);
    }
}

proof fn lemma_next_past_newline(ts: Seq<Seq<char>>, p: int)
    requires
        0 <= p <= ts.len(),
    ensures
        p <= next_past_newline(ts, p).1 <= ts.len(),
        next_past_newline(ts, p).0 is Some ==> p < next_past_newline(ts, p).1,
    decreases ts.len() - p,
{
    if p < ts.len() && !is_nl(ts[p]) && ts[p].len() == 0 {
        lemma_next_past_newline(ts, p + 1);
    }
}

proof fn lemma_variables_err(b: Seq<Seq<char>>, i: int, e: ErrV)
    requires
        0 <= i <= b.len(),
        variables_of(b.subrange(0, i)) == Err::<Seq<VarV>, ErrV>(e),
    ensures
        variables_of(b) == Err::<Seq<VarV>, ErrV>(e),
    decreases b.len() - i,
{
    if i == b.len() {
        assert(b.subrange(0, i) =~= b);
    } else {
        assert(b.subrange(0, i + 1).drop_last() =~= b.subrange(0, i));
        lemma_variables_err(b, i + 1, e);
    }
}

pub open spec fn opt_view(o: Option<Vec<char>>) -> Option<Seq<char>> {
    match o {
        Some(t) => Some(t@),
        None => None,
    }
}

/// The strings of those character sequences.
fn strings_of(v: &Vec<Vec<char>>) -> (r: Vec<String>)
    ensures
        strings_view(r@) == views(v@),
{
    let mut r: Vec<String> = Vec::new();
    let mut i: usize = 0;
    while i < v.len()
        invariant
            i <= v@.len(),
            strings_view(r@) == views(v@).subrange(0, i as int),
        decreases v@.len() - i,
    {
        let ghost prev = strings_view(r@);
        let t = string_of(&v[i]);
        r.push(t);
        assert(strings_view(r@) =~= prev.push(t@));
        i = i + 1;
        assert(strings_view(r@) =~= views(v@).subrange(0, i as int));
    }
    assert(views(v@).subrange(0, i as int) =~= views(v@));
    r
}

fn join_term_exec(t: &Vec<char>) -> (r: JoinTerm)
    ensures
        r@ == join_term(t@),
{
    if contains_char(t, '"') {
        proof {
            lemma_find_char_bounds(t@, '"', 0);
        }
        let n: usize = t.len();
        let f = find_char(t, '"', 0).unwrap();
        proof {
            lemma_rfind_bounds(t@, '"', t@.len() as int, f as int);
        }
        let l = rfind_char(t, '"').unwrap();
        let inner = slice_chars(t, f, l + 1);
        JoinTerm::Literal(string_of(&trim_char_exec(&inner, '"')))
    } else {
        JoinTerm::Variable(string_of(&trim_chars(t)))
    }
}

proof fn lemma_rfind_bounds(s: Seq<char>, c: char, j: int, f: int)
    requires
        0 <= f < j <= s.len(),
        s[f] == c,
    ensures
        f <= rfind_char_before(s, c, j) < j,
    decreases j,
{
    if s[j - 1] != c {
        lemma_rfind_bounds(s, c, j - 1, f);
    }
}

/// A join of the given comma-separated terms.
fn parse_write_join(terms: &Vec<Vec<char>>) -> (r: Cmd)
    ensures
        r@ == (CmdV::WriteJoin {
            terms: views(terms@).map_values(|t: Seq<char>| join_term(t)),
            output_comment: Seq::empty(),
        }),
{
    let ghost tv = views(terms@);
    let mut join_terms: Vec<JoinTerm> = Vec::new();
    let mut i: usize = 0;
    while i < terms.len()
        invariant
            i <= terms@.len(),
            tv == views(terms@),
            terms_view(join_terms@) == tv.subrange(0, i as int).map_values(
                |t: Seq<char>| join_term(t),
            ),
        decreases terms@.len() - i,
    {
        let ghost prev = terms_view(join_terms@);
        let jt = join_term_exec(&terms[i]);
        join_terms.push(jt);
        assert(terms_view(join_terms@) =~= prev.push(jt@));
        i = i + 1;
        assert(terms_view(join_terms@) =~= tv.subrange(0, i as int).map_values(
            |t: Seq<char>| join_term(t),
        ));
    }
    assert(tv.subrange(0, i as int) =~= tv);
    Cmd::WriteJoin { join_terms, output_comment: String::new() }
}

/// The type part of a token that holds a `:`.
fn type_part(tok: &Vec<char>, c: usize) -> (r: Vec<char>)
    requires
        c as int == find_char_from(tok@, ':', 0),
        c < tok@.len(),
    ensures
        r@ == type_field(tok@),
{
    let n: usize = tok.len();
    let rest = slice_chars(tok, c + 1, n);
    match find_char(&rest, ':', 0) {
        Some(d) => slice_chars(&rest, 0, d),
        None => rest,
    }
}

/// Builds a sized variable of the token `tok` from the groups that the
/// length pattern captured in its type (whole match, kind, length).
pub fn sized_variable(tok: &Vec<char>, groups: &Option<Vec<Vec<char>>>) -> (r: Result<
    VariableCommand,
    ParseError,
>)
    ensures
        match r {
            Ok(v) => sized_variable_of(
                tok@,
                match groups {
                    Some(g) => Some(views(g@)),
                    None => None,
                },
            ) == Ok::<VarV, ErrV>(v@),
            Err(e) => sized_variable_of(
                tok@,
                match groups {
                    Some(g) => Some(views(g@)),
                    None => None,
                },
            ) == Err::<VarV, ErrV>(e@),
        },
{
    let g = match groups {
        Some(g) => g,
        None => return Err(ParseError::InvalidType(string_of(tok))),
    };
    let (ident, ty) = match find_char(tok, ':', 0) {
        Some(c) => (slice_chars(tok, 0, c), type_part(tok, c)),
        None => {
            let n: usize = tok.len();
            proof {
                assert(tok@.subrange(0, n as int) =~= tok@);
                assert(tok@.subrange(-1 + 1, n as int) =~= tok@);
            }
            (slice_chars(tok, 0, n), slice_chars(tok, 0, n))
        },
    };
    proof {
        if g@.len() >= 3 {
            assert(views(g@)[0] == g@[0]@ && views(g@)[1] == g@[1]@ && views(g@)[2] == g@[2]@);
        }
    }
    if g.len() >= 3 && chars_eq(&g[0], &ty) && (is_word(&g[1], "word") || is_word(&g[1], "string")) {
        let t = if is_word(&g[1], "word") {
            VarType::Word
        } else {
            VarType::String
        };
        Ok(
            VariableCommand {
                ident: string_of(&ident),
                var_type: t,
                max_length: Some(string_of(&g[2])),
                input_comment: String::new(),
            },
        )
    } else {
        Err(ParseError::InvalidType(string_of(tok)))
    }
}

/// Reads the first line of a `write` block as a join, where it is one.
#[verifier::loop_isolation(false)]
fn check_for_write_join(line: &Vec<char>) -> (r: Option<Cmd>)
    ensures
        match r {
            Some(c) => write_join(line@) == Some(c@),
            None => write_join(line@) is None,
        },
{
    let empty_call = chars_of("join()");
    let call = chars_of("join(");
    let s = remove_all_exec(line, &empty_call);
    let k = match find_exec(&s, &call) {
        Some(k) => k,
        None => return None,
    };
    let sn: usize = s.len();
    let arg = slice_chars(&s, k + call.len(), sn);
    let e = match find_char(&arg, ')', 0) {
        Some(e) => e,
        None => return None,
    };
    let terms = split_chars(&slice_chars(&arg, 0, e), ',');
    let ghost tv = views(terms@);
    let mut i: usize = 0;
    while i < terms.len()
        invariant
            i <= terms@.len(),
            tv == views(terms@),
            forall|j: int| 0 <= j < i ==> #[trigger] trim(tv[j]).len() > 0,
        decreases terms@.len() - i,
    {
        if trim_chars(&terms[i]).len() == 0 {
            assert(trim(tv[i as int]).len() == 0);
            assert(exists|j: int| 0 <= j < tv.len() && #[trigger] trim(tv[j]).len() == 0);
            let mut lines: Vec<String> = Vec::new();
            let l = string_of(line);
            lines.push(l);
            assert(strings_view(lines@) =~= seq![line@]);
            let r = Cmd::Write { lines, output_comment: String::new() };
            assert(r@ == CmdV::Write { lines: seq![line@], output_comment: Seq::empty() });
            assert(write_join(line@) == Some(r@));
            return Some(r);
        }
        i = i + 1;
    }
    Some(parse_write_join(&terms))
}

/// Copy of a token.
fn copy_chars(v: &Vec<char>) -> (r: Vec<char>)
    ensures
        r@ == v@,
{
    let r = slice_chars(v, 0, v.len());
    assert(r@ =~= v@);
    r
}

fn is_newline(t: &Vec<char>) -> (r: bool)
    ensures
        r == is_nl(t@),
{
    let r = t.len() == 1 && t[0] == '\n';
    if r {
        assert(t@ =~= newline());
    }
    r
}

/// Whether `t` holds the characters of `word`.
fn is_word(t: &Vec<char>, word: &str) -> (r: bool)
    ensures
        r == (t@ == word@),
{
    let w = chars_of(word);
    chars_eq(t, &w)
}

/// Cursor over the tokens of one script.
struct Parser {
    tokens: Vec<Vec<char>>,
    pos: usize,
}

impl Parser {
    spec fn ts(&self) -> Seq<Seq<char>> {
        views(self.tokens@)
    }

    spec fn wf(&self) -> bool {
        self.pos <= self.tokens@.len()
    }

    fn new(script: &str) -> (r: Parser)
        ensures
            r.ts() == tokens(script@),
            r.pos == 0,
    {
        Parser { tokens: tokenize(script), pos: 0 }
    }

    fn next_token(&mut self) -> (r: Option<Vec<char>>)
        requires
            old(self).wf(),
        ensures
            final(self).wf(),
            final(self).tokens == old(self).tokens,
            old(self).pos <= final(self).pos,
            old(self).pos < old(self).tokens@.len() ==> (r matches Some(t) && t@ == old(
                self,
            ).ts()[old(self).pos as int] && final(self).pos == old(self).pos + 1),
            old(self).pos >= old(self).tokens@.len() ==> r is None && final(self).pos == old(
                self,
            ).pos,
    {
        if self.pos < self.tokens.len() {
            let t = copy_chars(&self.tokens[self.pos]);
            self.pos = self.pos + 1;
            Some(t)
        } else {
            None
        }
    }

    /// The tokens up to the next newline, which is consumed; `None` where
    /// they are all empty.
    fn tokens_upto_newline(&mut self) -> (r: Option<Vec<Vec<char>>>)
        requires
            old(self).wf(),
        ensures
            final(self).wf(),
            final(self).tokens == old(self).tokens,
            old(self).pos <= final(self).pos,
            final(self).pos == upto(old(self).ts(), old(self).pos as int).1,
            match r {
                Some(b) => views(b@) == upto(old(self).ts(), old(self).pos as int).0 && !all_empty(
                    views(b@),
                ),
                None => all_empty(upto(old(self).ts(), old(self).pos as int).0),
            },
    {
        let ghost ts = self.ts();
        let ghost p0 = self.pos as int;
        proof {
            lemma_upto(ts, p0);
        }
        let mut buf: Vec<Vec<char>> = Vec::new();
        let mut done = false;
        while !done && self.pos < self.tokens.len()
            invariant
                self.wf(),
                self.ts() == ts,
                self.tokens == old(self).tokens,
                old(self).pos <= self.pos,
                p0 == old(self).pos,
                ts == old(self).ts(),
                p0 <= self.pos,
                !done ==> views(buf@) + upto(ts, self.pos as int).0 == upto(ts, p0).0,
                !done ==> upto(ts, self.pos as int).1 == upto(ts, p0).1,
                done ==> views(buf@) == upto(ts, p0).0 && self.pos == upto(ts, p0).1,
            decreases self.tokens@.len() - self.pos,
        {
            let t = copy_chars(&self.tokens[self.pos]);
            assert(t@ == ts[self.pos as int]);
            self.pos = self.pos + 1;
            if is_newline(&t) {
                assert(views(buf@) =~= upto(ts, p0).0);
                done = true;
                continue;
            }
            let ghost prev = views(buf@);
            buf.push(t);
            assert(views(buf@) =~= prev.push(t@));
            assert(prev + upto(ts, self.pos - 1).0 =~= views(buf@) + upto(ts, self.pos as int).0);
        }
        proof {
            if !done {
                assert(views(buf@) + upto(ts, self.pos as int).0 =~= views(buf@));
            }
        }
        let mut i: usize = 0;
        while i < buf.len()
            invariant
                self.wf(),
                self.tokens == old(self).tokens,
                old(self).pos <= self.pos,
                self.pos == upto(ts, p0).1,
                views(buf@) == upto(ts, p0).0,
                p0 == old(self).pos,
                ts == old(self).ts(),
                i <= buf@.len(),
                forall|k: int| 0 <= k < i ==> #[trigger] views(buf@)[k].len() == 0,
            decreases buf@.len() - i,
        {
            if buf[i].len() > 0 {
                assert(views(buf@)[i as int].len() > 0);
                return Some(buf);
            }
            i = i + 1;
        }
        None
    }

    /// The next line as text, or `None` where it holds nothing.
    fn rest_of_line(&mut self) -> (r: Option<Vec<char>>)
        requires
            old(self).wf(),
        ensures
            final(self).wf(),
            final(self).tokens == old(self).tokens,
            old(self).pos <= final(self).pos,
            final(self).pos == upto(old(self).ts(), old(self).pos as int).1,
            match r {
                Some(l) => l@ == line_text(upto(old(self).ts(), old(self).pos as int).0) && !all_empty(
                    upto(old(self).ts(), old(self).pos as int).0,
                ),
                None => all_empty(upto(old(self).ts(), old(self).pos as int).0),
            },
    {
        match self.tokens_upto_newline() {
            Some(b) => {
                let mut sp: Vec<char> = Vec::new();
                sp.push(' ');
                assert(sp@ =~= space());
                let j = join_chars(&b, &sp);
                Some(trim_chars(&j))
            },
            None => None,
        }
    }

    fn skip_to_next_line(&mut self)
        requires
            old(self).wf(),
        ensures
            final(self).wf(),
            final(self).tokens == old(self).tokens,
            old(self).pos <= final(self).pos,
            final(self).pos == skip_line(old(self).ts(), old(self).pos as int),
    {
        let ghost ts = self.ts();
        let ghost p0 = self.pos as int;
        let mut done = false;
        while !done && self.pos < self.tokens.len()
            invariant
                self.wf(),
                self.ts() == ts,
                self.tokens == old(self).tokens,
                old(self).pos <= self.pos,
                p0 == old(self).pos,
                ts == old(self).ts(),
                !done ==> skip_line(ts, self.pos as int) == skip_line(ts, p0),
                done ==> self.pos == skip_line(ts, p0),
            decreases self.tokens@.len() - self.pos,
        {
            let nl = is_newline(&self.tokens[self.pos]);
            self.pos = self.pos + 1;
            if nl {
                done = true;
            }
        }
    }

    /// Lines up to a blank one, after the current position.
    fn collect_lines(&mut self) -> (r: Vec<Vec<char>>)
        requires
            old(self).wf(),
        ensures
            final(self).wf(),
            final(self).tokens == old(self).tokens,
            old(self).pos <= final(self).pos,
            final(self).pos == text_lines(old(self).ts(), old(self).pos as int).1,
            views(r@) == text_lines(old(self).ts(), old(self).pos as int).0,
    {
        let ghost ts = self.ts();
        let ghost p0 = self.pos as int;
        let mut out: Vec<Vec<char>> = Vec::new();
        loop
            invariant
                self.wf(),
                p0 == old(self).pos,
                ts == old(self).ts(),
                self.ts() == ts,
                self.tokens == old(self).tokens,
                old(self).pos <= self.pos,
                views(out@) + text_lines(ts, self.pos as int).0 == text_lines(ts, p0).0,
                text_lines(ts, self.pos as int).1 == text_lines(ts, p0).1,
            decreases self.tokens@.len() - self.pos,
        {
            let ghost p = self.pos as int;
            proof {
                lemma_upto(ts, p);
            }
            match self.rest_of_line() {
                None => {
                    assert(views(out@) =~= text_lines(ts, p0).0);
                    return out;
                },
                Some(l) => {
                    let ghost prev = views(out@);
                    out.push(l);
                    assert(views(out@) =~= prev.push(l@));
                    assert(prev + text_lines(ts, p).0 =~= views(out@) + text_lines(
                        ts,
                        self.pos as int,
                    ).0);
                },
            }
        }
    }

    fn parse_text_block(&mut self) -> (r: Vec<char>)
        requires
            old(self).wf(),
        ensures
            final(self).wf(),
            final(self).tokens == old(self).tokens,
            old(self).pos <= final(self).pos,
            (r@, final(self).pos as int) == text_block(old(self).ts(), old(self).pos as int),
    {
        self.skip_to_next_line();
        let ls = self.collect_lines();
        let nl = chars_of("\n");
        proof {
            reveal_strlit("\n");
            assert(nl@ =~= newline());
        }
        join_chars(&ls, &nl)
    }

    fn parse_variable(tok: &Vec<char>) -> (r: Result<VariableCommand, ParseError>)
        ensures
            match r {
                Ok(v) => variable(tok@) == Ok::<VarV, ErrV>(v@),
                Err(e) => variable(tok@) == Err::<VarV, ErrV>(e@),
            },
    {
        let c = match find_char(tok, ':', 0) {
            Some(c) => c,
            None => {
                return Err(ParseError::MissingType(string_of(tok)));
            },
        };
        let n: usize = tok.len();
        let ident = string_of(&slice_chars(tok, 0, c));
        let rest = slice_chars(tok, c + 1, n);
        let ty = match find_char(&rest, ':', 0) {
            Some(d) => slice_chars(&rest, 0, d),
            None => rest,
        };
        assert(ty@ == type_field(tok@));
        let tt = trim_end_chars(&ty);
        let plain = if is_word(&tt, "int") {
            Some(VarType::Int)
        } else if is_word(&tt, "float") {
            Some(VarType::Float)
        } else if is_word(&tt, "long") {
            Some(VarType::Long)
        } else if is_word(&tt, "bool") {
            Some(VarType::Bool)
        } else {
            None
        };
        if let Some(t) = plain {
            let v = VariableCommand {
                ident,
                var_type: t,
                max_length: None,
                input_comment: String::new(),
            };
            return Ok(v);
        }
        let groups = captures("(word|string)\\((\\w+)\\)", &ty);
        sized_variable(tok, &groups)
    }

    fn next_past_newline(&mut self) -> (r: Option<Vec<char>>)
        requires
            old(self).wf(),
        ensures
            final(self).wf(),
            final(self).tokens == old(self).tokens,
            old(self).pos <= final(self).pos,
            (opt_view(r), final(self).pos as int) == next_past_newline(
                old(self).ts(),
                old(self).pos as int,
            ),
    {
        let ghost ts = self.ts();
        let ghost p0 = self.pos as int;
        while self.pos < self.tokens.len()
            invariant
                self.wf(),
                self.ts() == ts,
                ts == old(self).ts(),
                self.tokens == old(self).tokens,
                old(self).pos <= self.pos,
                p0 == old(self).pos,
                next_past_newline(ts, self.pos as int) == next_past_newline(ts, p0),
            decreases self.tokens@.len() - self.pos,
        {
            if is_newline(&self.tokens[self.pos]) {
                self.pos = self.pos + 1;
                return self.next_token();
            }
            if self.tokens[self.pos].len() > 0 {
                let t = copy_chars(&self.tokens[self.pos]);
                self.pos = self.pos + 1;
                return Some(t);
            }
            self.pos = self.pos + 1;
        }
        None
    }

    #[verifier::loop_isolation(false)]
    fn parse_variables(&mut self) -> (r: Result<Vec<VariableCommand>, ParseError>)
        requires
            old(self).wf(),
        ensures
            final(self).wf(),
            final(self).tokens == old(self).tokens,
            old(self).pos <= final(self).pos,
            match r {
                Ok(v) => variables_line(old(self).ts(), old(self).pos as int) == (
                    Ok::<Seq<VarV>, ErrV>(vars_view(v@)),
                    final(self).pos as int,
                ),
                Err(e) => variables_line(old(self).ts(), old(self).pos as int).0 == Err::<
                    Seq<VarV>,
                    ErrV,
                >(e@),
            },
    {
        let b = match self.tokens_upto_newline() {
            Some(b) => b,
            None => return Err(ParseError::EmptyVariableLine),
        };
        let ghost bv = views(b@);
        let mut vars: Vec<VariableCommand> = Vec::new();
        assert(bv.subrange(0, 0) =~= Seq::<Seq<char>>::empty());
        assert(vars_view(vars@) =~= Seq::<VarV>::empty());
        let mut i: usize = 0;
        while i < b.len()
            invariant
                i <= b@.len(),
                bv == views(b@),
                variables_of(bv.subrange(0, i as int)) == Ok::<Seq<VarV>, ErrV>(vars_view(vars@)),
            decreases b@.len() - i,
        {
            let ghost pre = bv.subrange(0, i as int);
            assert(bv.subrange(0, i + 1).drop_last() =~= pre);
            assert(bv.subrange(0, i + 1).last() == b@[i as int]@);
            if b[i].len() > 0 {
                match Self::parse_variable(&b[i]) {
                    Ok(v) => {
                        let ghost prev = vars_view(vars@);
                        vars.push(v);
                        assert(vars_view(vars@) =~= prev.push(v@));
                    },
                    Err(e) => {
                        proof {
                            lemma_variables_err(bv, i + 1, e@);
                        }
                        return Err(e);
                    },
                }
            }
            i = i + 1;
        }
        assert(bv.subrange(0, i as int) =~= bv);
        Ok(vars)
    }

    fn parse_read(&mut self) -> (r: Result<Cmd, ParseError>)
        requires
            old(self).wf(),
        ensures
            final(self).wf(),
            final(self).tokens == old(self).tokens,
            old(self).pos <= final(self).pos,
            match r {
                Ok(c) => read_cmd(old(self).ts(), old(self).pos as int) == Ok::<(CmdV, int), ErrV>(
                    (c@, final(self).pos as int),
                ),
                Err(e) => read_cmd(old(self).ts(), old(self).pos as int) == Err::<(CmdV, int), ErrV>(
                    e@,
                ),
            },
    {
        let vars = self.parse_variables()?;
        Ok(Cmd::Read(vars))
    }

    fn parse_write(&mut self) -> (r: Cmd)
        requires
            old(self).wf(),
        ensures
            final(self).wf(),
            final(self).tokens == old(self).tokens,
            old(self).pos <= final(self).pos,
            (r@, final(self).pos as int) == write_cmd(old(self).ts(), old(self).pos as int),
    {
        let line = match self.rest_of_line() {
            Some(l) => l,
            None => {
                let r = Cmd::Write { lines: Vec::new(), output_comment: String::new() };
                assert(strings_view(Seq::<String>::empty()) =~= Seq::empty());
                return r;
            },
        };
        if let Some(w) = check_for_write_join(&line) {
            return w;
        }
        let rest = self.collect_lines();
        let mut all: Vec<Vec<char>> = Vec::new();
        all.push(line);
        let ghost first = views(all@);
        assert(first =~= seq![line@]);
        let mut i: usize = 0;
        while i < rest.len()
            invariant
                i <= rest@.len(),
                views(all@) == first + views(rest@).subrange(0, i as int),
            decreases rest@.len() - i,
        {
            let ghost prev = views(all@);
            let t = copy_chars(&rest[i]);
            all.push(t);
            assert(views(all@) =~= prev.push(t@));
            i = i + 1;
            assert(views(all@) =~= first + views(rest@).subrange(0, i as int));
        }
        assert(views(rest@).subrange(0, i as int) =~= views(rest@));
        Cmd::Write { lines: strings_of(&all), output_comment: String::new() }
    }

    fn parse_loopline(&mut self) -> (r: Result<Cmd, ParseError>)
        requires
            old(self).wf(),
        ensures
            final(self).wf(),
            final(self).tokens == old(self).tokens,
            old(self).pos <= final(self).pos,
            match r {
                Ok(c) => loopline_cmd(old(self).ts(), old(self).pos as int) == Ok::<
                    (CmdV, int),
                    ErrV,
                >((c@, final(self).pos as int)),
                Err(e) => loopline_cmd(old(self).ts(), old(self).pos as int) == Err::<
                    (CmdV, int),
                    ErrV,
                >(e@),
            },
    {
        let count = match self.next_past_newline() {
            Some(c) => c,
            None => return Err(ParseError::MissingLooplineCount),
        };
        if is_newline(&count) || count.len() == 0 {
            return Err(ParseError::MissingLooplineCount);
        }
        let variables = self.parse_variables()?;
        Ok(Cmd::LoopLine { count_var: string_of(&count), variables })
    }

    fn parse_loop(&mut self) -> (r: Result<Cmd, ParseError>)
        requires
            old(self).wf(),
        ensures
            final(self).wf(),
            final(self).tokens == old(self).tokens,
            old(self).pos <= final(self).pos,
            match r {
                Ok(c) => loop_cmd(old(self).ts(), old(self).pos as int) == Ok::<(CmdV, int), ErrV>(
                    (c@, final(self).pos as int),
                ),
                Err(e) => loop_cmd(old(self).ts(), old(self).pos as int) == Err::<(CmdV, int), ErrV>(
                    e@,
                ),
            },
        decreases old(self).tokens@.len() - old(self).pos, 1int,
    {
        proof {
            lemma_next_past_newline(self.ts(), self.pos as int);
        }
        let count = match self.next_past_newline() {
            Some(c) => c,
            None => return Err(ParseError::MissingLoopCount),
        };
        if is_newline(&count) || count.len() == 0 {
            return Err(ParseError::MissingLoopCount);
        }
        let body = self.parse_loopable()?;
        Ok(Cmd::Loop { count_var: string_of(&count), command: Box::new(body) })
    }

    fn parse_loopable(&mut self) -> (r: Result<Cmd, ParseError>)
        requires
            old(self).wf(),
        ensures
            final(self).wf(),
            final(self).tokens == old(self).tokens,
            old(self).pos <= final(self).pos,
            match r {
                Ok(c) => loopable(old(self).ts(), old(self).pos as int) == Ok::<(CmdV, int), ErrV>(
                    (c@, final(self).pos as int),
                ),
                Err(e) => loopable(old(self).ts(), old(self).pos as int) == Err::<(CmdV, int), ErrV>(
                    e@,
                ),
            },
        decreases old(self).tokens@.len() - old(self).pos, 0int,
    {
        proof {
            lemma_next_past_newline(self.ts(), self.pos as int);
        }
        let k = match self.next_past_newline() {
            Some(k) => k,
            None => return Err(ParseError::MissingLoopBody),
        };
        if is_newline(&k) {
            Err(ParseError::MissingLoopBody)
        } else if is_word(&k, "read") {
            self.parse_read()
        } else if is_word(&k, "write") {
            Ok(self.parse_write())
        } else if is_word(&k, "loopline") {
            self.parse_loopline()
        } else if is_word(&k, "loop") {
            self.parse_loop()
        } else {
            Err(ParseError::InvalidLoopBody(string_of(&k)))
        }
    }
}

fn copy_string(s: &String) -> (r: String)
    ensures
        r@ == s@,
{
    s.clone()
}

fn copy_variable(v: &VariableCommand) -> (r: VariableCommand)
    ensures
        r@ == v@,
{
    let max_length = match &v.max_length {
        Some(m) => Some(copy_string(m)),
        None => None,
    };
    VariableCommand {
        ident: copy_string(&v.ident),
        var_type: v.var_type,
        max_length,
        input_comment: copy_string(&v.input_comment),
    }
}

fn comment_variables(vars: &Vec<VariableCommand>, ident: &String, comment: &String) -> (r: Vec<
    VariableCommand,
>)
    ensures
        vars_view(r@) == comment_vars(vars_view(vars@), ident@, comment@),
{
    let ghost target = comment_vars(vars_view(vars@), ident@, comment@);
    let mut r: Vec<VariableCommand> = Vec::new();
    let mut i: usize = 0;
    while i < vars.len()
        invariant
            i <= vars@.len(),
            target == comment_vars(vars_view(vars@), ident@, comment@),
            vars_view(r@) == target.subrange(0, i as int),
        decreases vars@.len() - i,
    {
        let mut v = copy_variable(&vars[i]);
        if v.ident == *ident {
            v.input_comment = copy_string(comment);
        }
        let ghost prev = vars_view(r@);
        r.push(v);
        assert(vars_view(r@) =~= prev.push(v@));
        i = i + 1;
        assert(vars_view(r@) =~= target.subrange(0, i as int));
    }
    assert(target.subrange(0, i as int) =~= target);
    r
}

/// Gives an `OUTPUT` comment to one command.
fn update_cmd_with_output_comment(cmd: Cmd, comment: &String) -> (r: Cmd)
    ensures
        r@ == with_output_comment(cmd@, comment@),
    decreases cmd,
{
    match cmd {
        Cmd::Write { lines, output_comment } => {
            if output_comment.as_str().is_empty() {
                Cmd::Write { lines, output_comment: copy_string(comment) }
            } else {
                Cmd::Write { lines, output_comment }
            }
        },
        Cmd::WriteJoin { join_terms, output_comment } => {
            if output_comment.as_str().is_empty() {
                Cmd::WriteJoin { join_terms, output_comment: copy_string(comment) }
            } else {
                Cmd::WriteJoin { join_terms, output_comment }
            }
        },
        Cmd::Loop { count_var, command } => {
            let inner = update_cmd_with_output_comment(*command, comment);
            Cmd::Loop { count_var, command: Box::new(inner) }
        },
        other => other,
    }
}

/// Gives an `INPUT` comment for `ident` to one command.
fn update_cmd_with_input_comment(cmd: Cmd, ident: &String, comment: &String) -> (r: Cmd)
    ensures
        r@ == with_input_comment(cmd@, ident@, comment@),
    decreases cmd,
{
    match cmd {
        Cmd::Read(vars) => Cmd::Read(comment_variables(&vars, ident, comment)),
        Cmd::LoopLine { count_var, variables } => {
            let variables = comment_variables(&variables, ident, comment);
            Cmd::LoopLine { count_var, variables }
        },
        Cmd::Loop { count_var, command } => {
            let inner = update_cmd_with_input_comment(*command, ident, comment);
            Cmd::Loop { count_var, command: Box::new(inner) }
        },
        other => other,
    }
}

/// Gives an `OUTPUT` comment to every command parsed so far.
pub fn parse_output_comment(cmds: Vec<Cmd>, comment: &String) -> (r: Vec<Cmd>)
    ensures
        cmds_view(r@) == cmds_view(cmds@).map_values(|c: CmdV| with_output_comment(c, comment@)),
{
    let ghost target = cmds_view(cmds@).map_values(|c: CmdV| with_output_comment(c, comment@));
    let ghost n = cmds@.len();
    let mut src = cmds;
    let mut out: Vec<Cmd> = Vec::new();
    while src.len() > 0
        invariant
            out@.len() + src@.len() == n,
            n == target.len(),
            cmds_view(out@) == target.subrange(0, out@.len() as int),
            forall|j: int|
                0 <= j < src@.len() ==> with_output_comment(#[trigger] src@[j]@, comment@)
                    == target[out@.len() + j],
        decreases src@.len(),
    {
        let ghost before = src@;
        let c = src.remove(0);
        assert(with_output_comment(before[0]@, comment@) == target[out@.len() as int]);
        let u = update_cmd_with_output_comment(c, comment);
        let ghost prev = cmds_view(out@);
        out.push(u);
        assert(cmds_view(out@) =~= prev.push(u@));
        assert(cmds_view(out@) =~= target.subrange(0, out@.len() as int));
        assert forall|j: int| 0 <= j < src@.len() implies with_output_comment(
            #[trigger] src@[j]@,
            comment@,
        ) == target[out@.len() + j] by {
            assert(src@[j] == before[j + 1]);
        }
    }
    assert(target.subrange(0, out@.len() as int) =~= target);
    out
}

/// Gives an `INPUT` comment for `ident` to every command parsed so far.
fn input_comment_all(cmds: Vec<Cmd>, ident: &String, comment: &String) -> (r: Vec<Cmd>)
    ensures
        cmds_view(r@) == cmds_view(cmds@).map_values(
            |c: CmdV| with_input_comment(c, ident@, comment@),
        ),
{
    let ghost target = cmds_view(cmds@).map_values(
        |c: CmdV| with_input_comment(c, ident@, comment@),
    );
    let ghost n = cmds@.len();
    let mut src = cmds;
    let mut out: Vec<Cmd> = Vec::new();
    while src.len() > 0
        invariant
            out@.len() + src@.len() == n,
            n == target.len(),
            cmds_view(out@) == target.subrange(0, out@.len() as int),
            forall|j: int|
                0 <= j < src@.len() ==> with_input_comment(#[trigger] src@[j]@, ident@, comment@)
                    == target[out@.len() + j],
        decreases src@.len(),
    {
        let ghost before = src@;
        let c = src.remove(0);
        assert(with_input_comment(before[0]@, ident@, comment@) == target[out@.len() as int]);
        let u = update_cmd_with_input_comment(c, ident, comment);
        let ghost prev = cmds_view(out@);
        out.push(u);
        assert(cmds_view(out@) =~= prev.push(u@));
        assert(cmds_view(out@) =~= target.subrange(0, out@.len() as int));
        assert forall|j: int| 0 <= j < src@.len() implies with_input_comment(
            #[trigger] src@[j]@,
            ident@,
            comment@,
        ) == target[out@.len() + j] by {
            assert(src@[j] == before[j + 1]);
        }
    }
    assert(target.subrange(0, out@.len() as int) =~= target);
    out
}

/// Gives each `ident: comment` line of an `INPUT` block to every command parsed so far.
fn parse_input_comment(cmds: Vec<Cmd>, text: &Vec<char>) -> (r: Vec<Cmd>)
    ensures
        cmds_view(r@) == apply_input(cmds_view(cmds@), input_pairs(lines(text@))),
{
    let ls = lines_exec(text);
    let ghost lv = views(ls@);
    let ghost c0 = cmds_view(cmds@);
    let mut cur = cmds;
    let mut i: usize = 0;
    assert(lv.subrange(0, 0) =~= Seq::<Seq<char>>::empty());
    while i < ls.len()
        invariant
            i <= ls@.len(),
            lv == views(ls@),
            lv == lines(text@),
            cmds_view(cur@) == apply_input(c0, input_pairs(lv.subrange(0, i as int))),
        decreases ls@.len() - i,
    {
        let line = &ls[i];
        let ghost pre = lv.subrange(0, i as int);
        let ghost now = lv.subrange(0, i + 1);
        assert(now.drop_last() =~= pre);
        assert(now.last() == line@);
        match find_char(line, ':', 0) {
            Some(c) => {
                let ident = string_of(&trim_chars(&slice_chars(line, 0, c)));
                let n: usize = line.len();
                let comment = string_of(&trim_chars(&slice_chars(line, c + 1, n)));
                let ghost ps = input_pairs(now);
                assert(ps.last() == (ident@, comment@));
                assert(ps.drop_last() == input_pairs(pre));
                cur = input_comment_all(cur, &ident, &comment);
            },
            None => {},
        }
        i = i + 1;
    }
    assert(lv.subrange(0, i as int) =~= lv);
    cur
}

impl Parser {
    fn parse(&mut self) -> (r: Result<Stub, ParseError>)
        requires
            old(self).wf(),
        ensures
            match r {
                Ok(st) => parse_from(old(self).ts(), old(self).pos as int, empty_stub()) == Ok::<
                    StubV,
                    ErrV,
                >(st@),
                Err(e) => parse_from(old(self).ts(), old(self).pos as int, empty_stub()) == Err::<
                    StubV,
                    ErrV,
                >(e@),
            },
    {
        let mut stub = Stub { commands: Vec::new(), statement: String::new() };
        let ghost ts = self.ts();
        let ghost p0 = self.pos as int;
        assert(cmds_view(stub.commands@) =~= Seq::<CmdV>::empty());
        while self.pos < self.tokens.len()
            invariant
                self.wf(),
                self.ts() == ts,
                ts == old(self).ts(),
                p0 == old(self).pos,
                parse_from(ts, self.pos as int, stub@) == parse_from(ts, p0, empty_stub()),
            decreases self.tokens@.len() - self.pos,
        {
            let ghost p = self.pos as int;
            let ghost st = stub@;
            let t = self.next_token().unwrap();
            if is_word(&t, "read") {
                assert(parse_from(ts, p, st) == then_cmd(ts, p, st, read_cmd(ts, p + 1)));
                let c = match self.parse_read() {
                    Ok(c) => c,
                    Err(e) => {
                        assert(then_cmd(ts, p, st, read_cmd(ts, p + 1)) == Err::<StubV, ErrV>(e@));
                        return Err(e);
                    },
                };
                assert(parse_from(ts, p, st) == parse_from(ts, self.pos as int, push_cmd(st, c@)));
                let ghost before = cmds_view(stub.commands@);
                stub.commands.push(c);
                assert(cmds_view(stub.commands@) =~= before.push(c@));
            } else if is_word(&t, "write") {
                assert(parse_from(ts, p, st) == then_cmd(ts, p, st, Ok(write_cmd(ts, p + 1))));
                let c = self.parse_write();
                assert(parse_from(ts, p, st) == parse_from(ts, self.pos as int, push_cmd(st, c@)));
                let ghost before = cmds_view(stub.commands@);
                stub.commands.push(c);
                assert(cmds_view(stub.commands@) =~= before.push(c@));
            } else if is_word(&t, "loop") {
                assert(parse_from(ts, p, st) == then_cmd(ts, p, st, loop_cmd(ts, p + 1)));
                let c = match self.parse_loop() {
                    Ok(c) => c,
                    Err(e) => {
                        assert(then_cmd(ts, p, st, loop_cmd(ts, p + 1)) == Err::<StubV, ErrV>(e@));
                        return Err(e);
                    },
                };
                assert(parse_from(ts, p, st) == parse_from(ts, self.pos as int, push_cmd(st, c@)));
                let ghost before = cmds_view(stub.commands@);
                stub.commands.push(c);
                assert(cmds_view(stub.commands@) =~= before.push(c@));
            } else if is_word(&t, "loopline") {
                assert(parse_from(ts, p, st) == then_cmd(ts, p, st, loopline_cmd(ts, p + 1)));
                let c = match self.parse_loopline() {
                    Ok(c) => c,
                    Err(e) => {
                        assert(then_cmd(ts, p, st, loopline_cmd(ts, p + 1)) == Err::<StubV, ErrV>(e@));
                        return Err(e);
                    },
                };
                assert(parse_from(ts, p, st) == parse_from(ts, self.pos as int, push_cmd(st, c@)));
                let ghost before = cmds_view(stub.commands@);
                stub.commands.push(c);
                assert(cmds_view(stub.commands@) =~= before.push(c@));
            } else if is_word(&t, "OUTPUT") {
                let txt = string_of(&self.parse_text_block());
                let mut cmds: Vec<Cmd> = Vec::new();
                std::mem::swap(&mut cmds, &mut stub.commands);
                stub.commands = parse_output_comment(cmds, &txt);
            } else if is_word(&t, "INPUT") {
                let txt = self.parse_text_block();
                let mut cmds: Vec<Cmd> = Vec::new();
                std::mem::swap(&mut cmds, &mut stub.commands);
                stub.commands = parse_input_comment(cmds, &txt);
            } else if is_word(&t, "STATEMENT") {
                let txt = self.parse_text_block();
                stub.statement = string_of(&txt);
            } else if is_newline(&t) || t.len() == 0 {
            } else {
                return Err(ParseError::UnknownToken(string_of(&t)));
            }
        }
        Ok(stub)
    }
}

/// The free-text block that starts at the keyword at cursor `pos` of
/// `tokens`, and the cursor after it.
pub fn text_block_at(tokens: &Vec<Vec<char>>, pos: usize) -> (r: (Vec<char>, usize))
    requires
        pos <= tokens@.len(),
    ensures
        (r.0@, r.1 as int) == text_block(views(tokens@), pos as int),
{
    let mut own: Vec<Vec<char>> = Vec::new();
    let mut i: usize = 0;
    while i < tokens.len()
        invariant
            i <= tokens@.len(),
            views(own@) == views(tokens@).subrange(0, i as int),
        decreases tokens@.len() - i,
    {
        let ghost prev = views(own@);
        let t = copy_chars(&tokens[i]);
        own.push(t);
        assert(views(own@) =~= prev.push(t@));
        i = i + 1;
        assert(views(own@) =~= views(tokens@).subrange(0, i as int));
    }
    assert(views(tokens@).subrange(0, i as int) =~= views(tokens@));
    let mut parser = Parser { tokens: own, pos };
    let text = parser.parse_text_block();
    (text, parser.pos)
}

/// Parses a generator script into its `Stub`.
pub fn parse_generator_stub(generator: &str) -> (r: Result<Stub, ParseError>)
    ensures
        match r {
            Ok(st) => parse_script(generator@) == Ok::<StubV, ErrV>(st@),
            Err(e) => parse_script(generator@) == Err::<StubV, ErrV>(e@),
        },
{
    let mut parser = Parser::new(generator);
    parser.parse()
}

/// Two token sequences of one length that agree from `p` on.
pub open spec fn same_from(ts: Seq<Seq<char>>, ts2: Seq<Seq<char>>, p: int) -> bool {
    ts2.len() == ts.len() && forall|i: int| p <= i < ts.len() ==> #[trigger] ts2[i] == ts[i]
}

proof fn lemma_upto_same(ts: Seq<Seq<char>>, ts2: Seq<Seq<char>>, p: int)
    requires
        0 <= p,
        same_from(ts, ts2, p),
    ensures
        upto(ts2, p) == upto(ts, p),
    decreases ts.len() - p,
{
    if p < ts.len() && !is_nl(ts[p]) {
        lemma_upto_same(ts, ts2, p + 1);
    }
}

proof fn lemma_skip_line_same(ts: Seq<Seq<char>>, ts2: Seq<Seq<char>>, p: int)
    requires
        0 <= p,
        same_from(ts, ts2, p),
    ensures
        skip_line(ts2, p) == skip_line(ts, p),
    decreases ts.len() - p,
{
    if p < ts.len() && !is_nl(ts[p]) {
        lemma_skip_line_same(ts, ts2, p + 1);
    }
}

proof fn lemma_text_lines_same(ts: Seq<Seq<char>>, ts2: Seq<Seq<char>>, p: int)
    requires
        0 <= p,
        same_from(ts, ts2, p),
    ensures
        text_lines(ts2, p) == text_lines(ts, p),
    decreases ts.len() - p,
{
    lemma_upto_same(ts, ts2, p);
    let (b, q) = upto(ts, p);
    if !(all_empty(b) || q <= p || q > ts.len()) {
        lemma_text_lines_same(ts, ts2, q);
    }
}

/// The free-text collector reads only the token slice from its cursor on:
/// over the same slice it yields the same text and stops at the same place,
/// whatever came before, so running it twice from one cursor gives one text.
pub proof fn text_block_repeatable(ts: Seq<Seq<char>>, ts2: Seq<Seq<char>>, p: int)
    requires
        0 <= p <= ts.len(),
        same_from(ts, ts2, p),
    ensures
        text_block(ts2, p) == text_block(ts, p),
{
    lemma_skip_line_same(ts, ts2, p);
    lemma_skip_line(ts, p);
    lemma_text_lines_same(ts, ts2, skip_line(ts, p));
}

/// An `OUTPUT` block after two writes, of which the first already has a
/// comment, gives its text to the second one only.
pub proof fn output_comment_fills_only_empty(
    l1: Seq<Seq<char>>,
    c1: Seq<char>,
    l2: Seq<Seq<char>>,
    text: Seq<char>,
)
    requires
        c1.len() > 0,
    ensures
        seq![
            CmdV::Write { lines: l1, output_comment: c1 },
            CmdV::Write { lines: l2, output_comment: Seq::empty() },
        ].map_values(|c: CmdV| with_output_comment(c, text)) == seq![
            CmdV::Write { lines: l1, output_comment: c1 },
            CmdV::Write { lines: l2, output_comment: text },
        ],
{
    let cmds = seq![
        CmdV::Write { lines: l1, output_comment: c1 },
        CmdV::Write { lines: l2, output_comment: Seq::<char>::empty() },
    ];
    assert(with_output_comment(cmds[0], text) == cmds[0]);
    assert(with_output_comment(cmds[1], text) == CmdV::Write { lines: l2, output_comment: text });
    assert(cmds.map_values(|c: CmdV| with_output_comment(c, text)) =~= seq![
        CmdV::Write { lines: l1, output_comment: c1 },
        CmdV::Write { lines: l2, output_comment: text },
    ]);
}

} // verus!
