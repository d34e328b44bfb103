//! Splits a generator script into space-separated fields, with a `"\n"` token
//! after the fields of every line.
use vstd::prelude::*;
use crate::text::{split, split_chars, views, slice_chars};

verus! {

/// Relies on `str::chars`: the characters of `s`, in order.
#[verifier::external_body]
pub(crate) fn chars_of(s: &str) -> (r: Vec<char>)
    ensures
        r@ == s@,
{
    s.chars().collect()
}

/// Relies on `FromIterator<char> for String`: the string of those characters.
#[verifier::external_body]
pub(crate) fn string_of(v: &Vec<char>) -> (r: String)
    ensures
        r@ == v@,
{
    v.iter().collect()
}

pub open spec fn newline() -> Seq<char> {
    seq!['\n']
}

/// A line with one trailing carriage return removed.
pub open spec fn strip_cr(l: Seq<char>) -> Seq<char> {
    if l.len() > 0 && l.last() == '\r' {
        l.drop_last()
    } else {
        l
    }
}

/// Number of lines: a final empty piece after the last newline is no line.
pub open spec fn line_count(p: Seq<Seq<char>>) -> int {
    if p.len() > 0 && p.last().len() == 0 {
        p.len() - 1
    } else {
        p.len() as int
    }
}

/// The lines of `s`, as `str::lines` gives them: split at `\n`, a `\r`
/// before the `\n` removed, no empty line after a final `\n`.
pub open spec fn lines(s: Seq<char>) -> Seq<Seq<char>> {
    let p = split(s, '\n');
    Seq::new(
        line_count(p) as nat,
        |k: int|
            if k + 1 < p.len() {
                strip_cr(p[k])
            } else {
                p[k]
            },
    )
}

/// The tokens of one line.
pub open spec fn line_tokens(l: Seq<char>) -> Seq<Seq<char>> {
    split(l, ' ').push(newline())
}

pub open spec fn tokens_of_lines(ls: Seq<Seq<char>>) -> Seq<Seq<char>>
    decreases ls.len(),
{
    if ls.len() == 0 {
        Seq::empty()
    } else {
        tokens_of_lines(ls.drop_last()) + line_tokens(ls.last())
    }
}

/// The token sequence of a whole script.
pub open spec fn tokens(s: Seq<char>) -> Seq<Seq<char>> {
    tokens_of_lines(lines(s))
}

fn newline_token() -> (r: Vec<char>)
    ensures
        r@ == newline(),
{
    let mut r: Vec<char> = Vec::new();
    r.push('\n');
    assert(r@ =~= newline());
    r
}

/// The lines of `s`.
pub fn lines_exec(s: &Vec<char>) -> (r: Vec<Vec<char>>)
    ensures
        views(r@) == lines(s@),
{
    let pieces = split_chars(s, '\n');
    let n: usize = pieces.len();
    let m: usize = if n > 0 && pieces[n - 1].len() == 0 {
        n - 1
    } else {
        n
    };
    let ghost ls = lines(s@);
    let mut out: Vec<Vec<char>> = Vec::new();
    let mut k: usize = 0;
    while k < m
        invariant
            n == pieces@.len(),
            views(pieces@) == split(s@, '\n'),
            m == ls.len(),
            ls == lines(s@),
            k <= m,
            views(out@) == ls.subrange(0, k as int),
        decreases m - k,
    {
        let piece = &pieces[k];
        let line = if k + 1 < n && piece.len() > 0 && piece[piece.len() - 1] == '\r' {
            slice_chars(piece, 0, piece.len() - 1)
        } else {
            slice_chars(piece, 0, piece.len())
        };
        assert(line@ == ls[k as int]) by {
            assert(views(pieces@)[k as int] == piece@);
            if k + 1 < n && piece@.len() > 0 && piece@.last() == '\r' {
                assert(line@ =~= piece@.drop_last());
            } else {
                assert(line@ =~= piece@);
            }
        }
        let ghost prev = views(out@);
        let ghost lv = line@;
        out.push(line);
        assert(views(out@) =~= prev.push(lv));
        k = k + 1;
        assert(views(out@) =~= ls.subrange(0, k as int));
    }
    assert(ls.subrange(0, m as int) =~= ls);
    out
}

/// Splits `script` into its tokens.
pub fn tokenize(script: &str) -> (r: Vec<Vec<char>>)
    ensures
        views(r@) == tokens(script@),
{
    let s = chars_of(script);
    let ls_exec = lines_exec(&s);
    let m: usize = ls_exec.len();
    let ghost ls = lines(s@);
    let mut out: Vec<Vec<char>> = Vec::new();
    let mut k: usize = 0;
    while k < m
        invariant
            m == ls.len(),
            views(ls_exec@) == ls,
            ls == lines(s@),
            s@ == script@,
            k <= m,
            views(out@) == tokens_of_lines(ls.subrange(0, k as int)),
        decreases m - k,
    {
        let line = &ls_exec[k];
        assert(line@ == ls[k as int]);
        let fields = split_chars(&line, ' ');
        let ghost before = views(out@);
        let mut i: usize = 0;
        while i < fields.len()
            invariant
                i <= fields@.len(),
                views(out@) == before + views(fields@).subrange(0, i as int),
            decreases fields@.len() - i,
        {
            let t = slice_chars(&fields[i], 0, fields[i].len());
            assert(t@ =~= views(fields@)[i as int]);
            let ghost prev = views(out@);
            out.push(t);
            assert(views(out@) =~= prev.push(t@));
            i = i + 1;
            assert(views(out@) =~= before + views(fields@).subrange(0, i as int));
        }
        assert(views(fields@).subrange(0, i as int) =~= views(fields@));
        let ghost mid = views(out@);
        out.push(newline_token());
        assert(views(out@) =~= mid.push(newline()));
        k = k + 1;
        proof {
            let done = ls.subrange(0, k as int);
            assert(done.last() == line@);
            assert(line_tokens(done.last()) == views(fields@).push(newline()));
            assert(done.drop_last() =~= ls.subrange(0, k - 1));
            assert(views(out@) =~= tokens_of_lines(done));
        }
    }
    assert(ls.subrange(0, m as int) =~= ls);
    out
}

/// First position at or after `i` that holds a space or a newline, or the end.
pub open spec fn field_end(s: Seq<char>, i: int) -> int
    decreases s.len() - i,
{
    if i < 0 || i >= s.len() || s[i] == ' ' || s[i] == '\n' {
        i
    } else {
        field_end(s, i + 1)
    }
}

/// One step of a `TokenStream` over the text `s`: the token and what is left.
/// A newline is a token of its own; a space right at the front is an empty
/// token; any other token runs to the next space or newline, and one space
/// after it is consumed.
pub open spec fn stream_next(s: Seq<char>) -> Option<(Seq<char>, Seq<char>)> {
    if s.len() == 0 {
        None
    } else if s[0] == '\n' {
        Some((newline(), s.drop_first()))
    } else if s[0] == ' ' {
        Some((Seq::empty(), s.drop_first()))
    } else {
        let k = field_end(s, 0);
        let rest = s.subrange(k, s.len() as int);
        Some(
            (
                s.subrange(0, k),
                if rest.len() > 0 && rest[0] == ' ' {
                    rest.drop_first()
                } else {
                    rest
                },
            ),
        )
    }
}

/// A lazy token iterator over a script, one token per call of `next`.
pub struct TokenStream {
    input: Vec<char>,
    pos: usize,
}

impl View for TokenStream {
    type V = Seq<char>;

    /// The text not yet consumed.
    closed spec fn view(&self) -> Seq<char> {
        self.input@.subrange(self.pos as int, self.input@.len() as int)
    }
}

impl TokenStream {
    pub closed spec fn wf(&self) -> bool {
        self.pos <= self.input@.len()
    }

    pub fn new(input: &str) -> (r: TokenStream)
        ensures
            r.wf(),
            r@ == input@,
    {
        let r = TokenStream { input: chars_of(input), pos: 0 };
        assert(r.input@.subrange(0, r.input@.len() as int) =~= r.input@);
        r
    }

    /// The next token, or `None` at the end of the text.
    pub fn next(&mut self) -> (r: Option<String>)
        requires
            old(self).wf(),
        ensures
            final(self).wf(),
            match stream_next(old(self)@) {
                None => r is None && final(self)@ == old(self)@,
                Some((t, rest)) => (r matches Some(x) && x@ == t) && final(self)@ == rest,
            },
    {
        let ghost s = self@;
        let n: usize = self.input.len();
        if self.pos >= n {
            return None;
        }
        let p = self.pos;
        assert(s[0] == self.input@[p as int]);
        if self.input[p] == '\n' {
            self.pos = p + 1;
            assert(self@ =~= s.drop_first());
            let mut t: Vec<char> = Vec::new();
            t.push('\n');
            assert(t@ =~= newline());
            return Some(string_of(&t));
        }
        if self.input[p] == ' ' {
            self.pos = p + 1;
            assert(self@ =~= s.drop_first());
            return Some(String::new());
        }
        let mut k: usize = p;
        while k < n && self.input[k] != ' ' && self.input[k] != '\n'
            invariant
                n == self.input@.len(),
                p <= k <= n,
                s == self.input@.subrange(p as int, n as int),
                field_end(s, k - p) == field_end(s, 0),
            decreases n - k,
        {
            assert(s[k - p] == self.input@[k as int]);
            k = k + 1;
        }
        proof {
            if k < n {
                assert(s[k - p] == self.input@[k as int]);
            }
        }
        let tok = slice_chars(&self.input, p, k);
        assert(tok@ =~= s.subrange(0, k - p));
        if k < n && self.input[k] == ' ' {
            self.pos = k + 1;
            assert(self@ =~= s.subrange(k - p, s.len() as int).drop_first());
        } else {
            self.pos = k;
            assert(self@ =~= s.subrange(k - p, s.len() as int));
        }
        Some(string_of(&tok))
    }
}

} // verus!
