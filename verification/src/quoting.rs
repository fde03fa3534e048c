//! Quoting of values for the shells that run the remote commands: single
//! quotes for the login shell that ssh starts, double quotes inside the
//! `bash -c '...'` script of the version check.
use vstd::prelude::*;
use vstd::string::*;
use crate::text::{chars_of, push_char};

verus! {

// ---------------------------------------------------------------------
// Single quotes
// ---------------------------------------------------------------------

/// What one character becomes inside a single-quoted word: a quote closes
/// the quotes, is given escaped, and opens them again.
pub open spec fn sq_piece(c: char) -> Seq<char> {
    if c == '\'' {
        seq!['\'', '\\', '\'', '\'']
    } else {
        seq![c]
    }
}

/// The body of the single-quoted form of `s`.
pub open spec fn sq_escape(s: Seq<char>) -> Seq<char>
    decreases s.len(),
{
    if s.len() == 0 {
        Seq::empty()
    } else {
        sq_piece(s[0]) + sq_escape(s.drop_first())
    }
}

/// `s` as one single-quoted shell word.
pub open spec fn spec_shell_quote(s: Seq<char>) -> Seq<char> {
    seq!['\''] + sq_escape(s) + seq!['\'']
}

/// The value that a POSIX shell gives the word `t` that starts outside
/// quotes, where `t` is made only of single-quoted runs and
/// backslash-escaped characters; `None` for any other text.
pub open spec fn sq_word_value(t: Seq<char>) -> Option<Seq<char>>
    decreases t.len(), 1int,
{
    if t.len() == 0 {
        Some(Seq::empty())
    } else if t[0] == '\'' {
        sq_quoted_value(t.drop_first())
    } else if t[0] == '\\' && t.len() >= 2 {
        match sq_word_value(t.skip(2)) {
            Some(r) => Some(seq![t[1]] + r),
            None => None,
        }
    } else {
        None
    }
}

/// As `sq_word_value`, for text that starts inside single quotes.
pub open spec fn sq_quoted_value(t: Seq<char>) -> Option<Seq<char>>
    decreases t.len(), 0int,
{
    if t.len() == 0 {
        None
    } else if t[0] == '\'' {
        sq_word_value(t.drop_first())
    } else {
        match sq_quoted_value(t.drop_first()) {
            Some(r) => Some(seq![t[0]] + r),
            None => None,
        }
    }
}

pub proof fn lemma_sq_escape_push(a: Seq<char>, c: char)
    ensures
        sq_escape(a.push(c)) == sq_escape(a) + sq_piece(c),
    decreases a.len(),
{
    if a.len() == 0 {
        assert(a.push(c).drop_first() =~= Seq::<char>::empty());
        assert(sq_escape(a.push(c)) =~= sq_piece(c) + sq_escape(Seq::<char>::empty()));
        assert(sq_escape(a) + sq_piece(c) =~= sq_piece(c));
    } else {
        assert(a.push(c).drop_first() =~= a.drop_first().push(c));
        lemma_sq_escape_push(a.drop_first(), c);
        assert(sq_escape(a.push(c)) =~= sq_piece(a[0]) + sq_escape(a.drop_first().push(c)));
        assert(sq_escape(a) + sq_piece(c) =~= sq_piece(a[0]) + (sq_escape(a.drop_first())
            + sq_piece(c)));
    }
}

proof fn lemma_sq_quoted_escape(s: Seq<char>)
    ensures
        sq_quoted_value(sq_escape(s) + seq!['\'']) == Some(s),
    decreases s.len(),
{
    let t = sq_escape(s) + seq!['\''];
    if s.len() == 0 {
        assert(t =~= seq!['\'']);
        assert(t.drop_first() =~= Seq::<char>::empty());
    } else {
        let rest = sq_escape(s.drop_first()) + seq!['\''];
        lemma_sq_quoted_escape(s.drop_first());
        let c = s[0];
        assert(t =~= sq_piece(c) + rest);
        if c == '\'' {
            let t1 = t.drop_first();
            assert(t1 =~= seq!['\\', '\'', '\''] + rest);
            assert(t1.skip(2) =~= seq!['\''] + rest);
            assert((seq!['\''] + rest).drop_first() =~= rest);
            assert(sq_word_value(seq!['\''] + rest) == Some(s.drop_first()));
            assert(sq_word_value(t1) == Some(seq!['\''] + s.drop_first()));
            assert(seq!['\''] + s.drop_first() =~= s);
        } else {
            assert(t.drop_first() =~= rest);
            assert(seq![c] + s.drop_first() =~= s);
        }
    }
}

/// Law: the single-quoted form of any text is read back by the shell as
/// exactly that text, every character of it quoted.
pub proof fn law_shell_quote_reads_back(s: Seq<char>)
    ensures
        sq_word_value(spec_shell_quote(s)) == Some(s),
{
    let t = spec_shell_quote(s);
    lemma_sq_quoted_escape(s);
    assert(t.drop_first() =~= sq_escape(s) + seq!['\'']);
}

/// A text without a single quote is its own single-quoted body.
pub proof fn lemma_sq_escape_plain(s: Seq<char>)
    requires
        !s.contains('\''),
    ensures
        sq_escape(s) == s,
    decreases s.len(),
{
    if s.len() > 0 {
        assert(!s.drop_first().contains('\'')) by {
            if s.drop_first().contains('\'') {
                let k = choose|k: int| 0 <= k < s.drop_first().len() && s.drop_first()[k] == '\'';
                assert(s[k + 1] == '\'');
            }
        }
        lemma_sq_escape_plain(s.drop_first());
        assert(s[0] != '\'');
        assert(seq![s[0]] + s.drop_first() =~= s);
    }
}

/// `s` as one single-quoted word for the remote shell; a single quote in
/// `s` is written as `'\''`.
pub fn shell_quote(s: &str) -> (r: String)
    ensures
        r@ == spec_shell_quote(s@),
{
    let v = chars_of(s);
    let mut out = String::new();
    push_char(&mut out, '\'');
    let mut i: usize = 0;
    while i < v.len()
        invariant
            i <= v.len(),
            out@ == seq!['\''] + sq_escape(v@.take(i as int)),
        decreases v.len() - i,
    {
        let c = v[i];
        if c == '\'' {
            push_char(&mut out, '\'');
            push_char(&mut out, '\\');
            push_char(&mut out, '\'');
            push_char(&mut out, '\'');
        } else {
            push_char(&mut out, c);
        }
        proof {
            lemma_sq_escape_push(v@.take(i as int), c);
            assert(v@.take(i + 1) =~= v@.take(i as int).push(c));
        }
        i = i + 1;
    }
    push_char(&mut out, '\'');
    assert(v@.take(v.len() as int) =~= s@);
    out
}

/// The prefix of every stack command: change into the stack's directory.
pub open spec fn spec_cd_prefix(dir: Seq<char>) -> Seq<char> {
    seq!['c', 'd', ' '] + spec_shell_quote(dir)
}

/// `cd '<dir>'`, with `dir` single-quoted.
pub fn cd_prefix(dir: &str) -> (r: String)
    ensures
        r@ == spec_cd_prefix(dir@),
{
    let mut out = String::new();
    push_char(&mut out, 'c');
    push_char(&mut out, 'd');
    push_char(&mut out, ' ');
    let q = shell_quote(dir);
    out.append(q.as_str());
    out
}

// ---------------------------------------------------------------------
// Double quotes
// ---------------------------------------------------------------------

/// The characters that a backslash escapes inside double quotes.
pub open spec fn dq_special(c: char) -> bool {
    c == '\\' || c == '"' || c == '$' || c == '`'
}

/// What one character becomes inside the double-quoted form.
pub open spec fn dq_piece(c: char) -> Seq<char> {
    if dq_special(c) {
        seq!['\\', c]
    } else {
        seq![c]
    }
}

/// The body of the double-quoted form of `s`.
pub open spec fn dq_escape(s: Seq<char>) -> Seq<char>
    decreases s.len(),
{
    if s.len() == 0 {
        Seq::empty()
    } else {
        dq_piece(s[0]) + dq_escape(s.drop_first())
    }
}

/// `s` as one double-quoted bash word.
pub open spec fn spec_bash_double_quote(s: Seq<char>) -> Seq<char> {
    seq!['"'] + dq_escape(s) + seq!['"']
}

/// The value that bash gives the rest `t` of a double-quoted word whose
/// opening quote has been read, where the closing quote must end `t`;
/// `None` where the text would not stay one literal word (it is not
/// closed, or holds an unescaped `$` or backquote, which bash would expand).
pub open spec fn dq_body_value(t: Seq<char>) -> Option<Seq<char>>
    decreases t.len(),
{
    if t.len() == 0 {
        None
    } else if t[0] == '"' {
        if t.len() == 1 {
            Some(Seq::empty())
        } else {
            None
        }
    } else if t[0] == '\\' && t.len() >= 2 && (dq_special(t[1]) || t[1] == '\n') {
        match dq_body_value(t.skip(2)) {
            Some(r) => Some(seq![t[1]] + r),
            None => None,
        }
    } else if t[0] == '$' || t[0] == '`' {
        None
    } else {
        match dq_body_value(t.drop_first()) {
            Some(r) => Some(seq![t[0]] + r),
            None => None,
        }
    }
}

/// The value of a double-quoted bash word `t`.
pub open spec fn dq_word_value(t: Seq<char>) -> Option<Seq<char>> {
    if t.len() > 0 && t[0] == '"' {
        dq_body_value(t.drop_first())
    } else {
        None
    }
}

pub proof fn lemma_dq_escape_push(a: Seq<char>, c: char)
    ensures
        dq_escape(a.push(c)) == dq_escape(a) + dq_piece(c),
    decreases a.len(),
{
    if a.len() == 0 {
        assert(a.push(c).drop_first() =~= Seq::<char>::empty());
        assert(dq_escape(a.push(c)) =~= dq_piece(c) + dq_escape(Seq::<char>::empty()));
        assert(dq_escape(a) + dq_piece(c) =~= dq_piece(c));
    } else {
        assert(a.push(c).drop_first() =~= a.drop_first().push(c));
        lemma_dq_escape_push(a.drop_first(), c);
        assert(dq_escape(a.push(c)) =~= dq_piece(a[0]) + dq_escape(a.drop_first().push(c)));
        assert(dq_escape(a) + dq_piece(c) =~= dq_piece(a[0]) + (dq_escape(a.drop_first())
            + dq_piece(c)));
    }
}

proof fn lemma_dq_body(s: Seq<char>)
    ensures
        dq_body_value(dq_escape(s) + seq!['"']) == Some(s),
    decreases s.len(),
{
    let t = dq_escape(s) + seq!['"'];
    if s.len() == 0 {
        assert(t =~= seq!['"']);
    } else {
        let c = s[0];
        let rest = dq_escape(s.drop_first()) + seq!['"'];
        lemma_dq_body(s.drop_first());
        assert(t =~= dq_piece(c) + rest);
        assert(seq![c] + s.drop_first() =~= s);
        if dq_special(c) {
            assert(t.skip(2) =~= rest);
        } else {
            assert(t.drop_first() =~= rest);
        }
    }
}

/// Law: the double-quoted form of any text is read back by bash as exactly
/// that text, with nothing in it expanded.
pub proof fn law_bash_double_quote_reads_back(s: Seq<char>)
    ensures
        dq_word_value(spec_bash_double_quote(s)) == Some(s),
{
    lemma_dq_body(s);
    assert(spec_bash_double_quote(s).drop_first() =~= dq_escape(s) + seq!['"']);
}

/// Escaping for double quotes adds no single quote.
pub proof fn lemma_dq_escape_no_single_quote(s: Seq<char>)
    requires
        !s.contains('\''),
    ensures
        !dq_escape(s).contains('\''),
    decreases s.len(),
{
    if s.len() > 0 {
        assert(!s.drop_first().contains('\'')) by {
            if s.drop_first().contains('\'') {
                let k = choose|k: int| 0 <= k < s.drop_first().len() && s.drop_first()[k] == '\'';
                assert(s[k + 1] == '\'');
            }
        }
        lemma_dq_escape_no_single_quote(s.drop_first());
        let t = dq_piece(s[0]) + dq_escape(s.drop_first());
        assert forall|k: int| 0 <= k < t.len() implies t[k] != '\'' by {
            if k < dq_piece(s[0]).len() {
                assert(s[0] != '\'');
            } else {
                assert(t[k] == dq_escape(s.drop_first())[k - dq_piece(s[0]).len()]);
            }
        }
    }
}

/// `s` as one double-quoted word for bash: `\`, `"`, `$` and the backquote
/// are escaped with a backslash.
pub fn bash_double_quote(s: &str) -> (r: String)
    ensures
        r@ == spec_bash_double_quote(s@),
{
    let v = chars_of(s);
    let mut out = String::new();
    push_char(&mut out, '"');
    let mut i: usize = 0;
    while i < v.len()
        invariant
            i <= v.len(),
            out@ == seq!['"'] + dq_escape(v@.take(i as int)),
        decreases v.len() - i,
    {
        let c = v[i];
        if c == '\\' || c == '"' || c == '$' || c == '`' {
            push_char(&mut out, '\\');
        }
        push_char(&mut out, c);
        proof {
            lemma_dq_escape_push(v@.take(i as int), c);
            assert(v@.take(i + 1) =~= v@.take(i as int).push(c));
        }
        i = i + 1;
    }
    push_char(&mut out, '"');
    assert(v@.take(v.len() as int) =~= s@);
    out
}

} // verus!
