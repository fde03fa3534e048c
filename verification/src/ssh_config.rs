//! Reading `~/.ssh/config`: the `Host` aliases that name real machines
//! (wildcard patterns are skipped) and the `Include` lines, in the order
//! they appear. Reading the files themselves is left to the caller.
use vstd::prelude::*;
use vstd::string::*;
use crate::text::{
    ascii_lower, chars_of, first_ws_from, has_prefix, is_whitespace, is_ws, lines, lines_of,
    range_has_prefix, same_chars, trim, trim_bounds, ws_tokens,
};
use crate::image_ref::strings_view;
use crate::sorting::{sorted_unique, strictly_sorted};

verus! {

/// One entry of an ssh config file that matters here.
#[derive(Debug, PartialEq, Eq)]
pub enum ConfigEntry {
    /// An alias of a `Host` line.
    Host(String),
    /// A pattern of an `Include` line.
    Include(String),
}

pub ghost enum ConfigEntryView {
    Host(Seq<char>),
    Include(Seq<char>),
}

impl View for ConfigEntry {
    type V = ConfigEntryView;

    open spec fn view(&self) -> ConfigEntryView {
        match self {
            ConfigEntry::Host(s) => ConfigEntryView::Host(s@),
            ConfigEntry::Include(s) => ConfigEntryView::Include(s@),
        }
    }
}

/// Where an `Include` pattern points.
#[derive(Debug, PartialEq, Eq)]
pub enum IncludeTarget {
    /// `~/rest`: `rest` under the home directory.
    UnderHome(String),
    /// Another pattern that starts with `/` or `~`: the pattern as written.
    AsWritten,
    /// Any other pattern: relative to the directory of the including file.
    BesideConfig,
}

pub ghost enum IncludeTargetView {
    UnderHome(Seq<char>),
    AsWritten,
    BesideConfig,
}

impl View for IncludeTarget {
    type V = IncludeTargetView;

    open spec fn view(&self) -> IncludeTargetView {
        match self {
            IncludeTarget::UnderHome(s) => IncludeTargetView::UnderHome(s@),
            IncludeTarget::AsWritten => IncludeTargetView::AsWritten,
            IncludeTarget::BesideConfig => IncludeTargetView::BesideConfig,
        }
    }
}

// ---------------------------------------------------------------------
// Specifications
// ---------------------------------------------------------------------

/// The `Host` entry of GitHub: a shared service, not a machine of one's own.
pub const GITHUB_HOST: &'static str = "github.com";

/// A `Host` token that names one machine: not a pattern (no `*` or `?`)
/// and not `github.com`.
pub open spec fn is_plain_alias(t: Seq<char>) -> bool {
    !t.contains('*') && !t.contains('?') && t != GITHUB_HOST@
}

/// The keyword of a trimmed line (up to its first whitespace) and the
/// rest after that whitespace character, trimmed.
pub open spec fn keyword_and_rest(t: Seq<char>) -> (Seq<char>, Seq<char>) {
    match first_ws_from(t, 0) {
        Some(k) => (t.take(k), trim(t.skip(k + 1))),
        None => (t, Seq::empty()),
    }
}

/// The entries of one line: none for a blank line or a comment; the plain
/// aliases of a `Host` line; the patterns of an `Include` line (keywords
/// in any case).
pub open spec fn line_entries(line: Seq<char>) -> Seq<ConfigEntryView> {
    let t = trim(line);
    if t.len() == 0 || t[0] == '#' {
        Seq::empty()
    } else {
        let (keyword, rest) = keyword_and_rest(t);
        let kw = keyword.map_values(|c: char| ascii_lower(c));
        if kw == "host"@ {
            ws_tokens(rest).filter(|a: Seq<char>| is_plain_alias(a)).map_values(
                |a: Seq<char>| ConfigEntryView::Host(a),
            )
        } else if kw == "include"@ {
            ws_tokens(rest).map_values(|p: Seq<char>| ConfigEntryView::Include(p))
        } else {
            Seq::empty()
        }
    }
}

/// The entries of the lines, line by line.
pub open spec fn lines_entries(ls: Seq<Seq<char>>) -> Seq<ConfigEntryView>
    decreases ls.len(),
{
    if ls.len() == 0 {
        Seq::empty()
    } else {
        lines_entries(ls.drop_last()) + line_entries(ls.last())
    }
}

/// The entries of a config file, in order.
pub open spec fn spec_config_entries(contents: Seq<char>) -> Seq<ConfigEntryView> {
    lines_entries(lines(contents))
}

/// Where an `Include` pattern points.
pub open spec fn spec_include_target(pattern: Seq<char>) -> IncludeTargetView {
    if pattern.len() > 0 && (pattern[0] == '/' || pattern[0] == '~') {
        if has_prefix(pattern, seq!['~', '/']) {
            IncludeTargetView::UnderHome(pattern.skip(2))
        } else {
            IncludeTargetView::AsWritten
        }
    } else {
        IncludeTargetView::BesideConfig
    }
}

/// The views of a list of entries.
pub open spec fn entries_view(v: Seq<ConfigEntry>) -> Seq<ConfigEntryView> {
    v.map_values(|e: ConfigEntry| e@)
}

// ---------------------------------------------------------------------
// Laws
// ---------------------------------------------------------------------

/// Law: every alias that a config yields names one machine: no wildcard,
/// and not `github.com`.
pub proof fn law_aliases_have_no_wildcards(ls: Seq<Seq<char>>)
    ensures
        forall|k: int|
            0 <= k < lines_entries(ls).len() ==> (#[trigger] lines_entries(ls)[k] matches ConfigEntryView::Host(a) ==> is_plain_alias(a)),
    decreases ls.len(),
{
    if ls.len() > 0 {
        law_aliases_have_no_wildcards(ls.drop_last());
        let a = lines_entries(ls.drop_last());
        let b = line_entries(ls.last());
        let t = trim(ls.last());
        if !(t.len() == 0 || t[0] == '#') {
            let (keyword, rest) = keyword_and_rest(t);
            let toks = ws_tokens(rest);
            broadcast use vstd::seq_lib::group_filter_ensures;
            let f = |x: Seq<char>| is_plain_alias(x);
            assert(forall|k: int| 0 <= k < toks.filter(f).len() ==> f(#[trigger] toks.filter(f)[k]));
        }
        assert forall|k: int| 0 <= k < (a + b).len() implies ((#[trigger] (a + b)[k]) matches ConfigEntryView::Host(x) ==> is_plain_alias(x)) by {
            if k < a.len() {
                assert((a + b)[k] == a[k]);
            } else {
                assert((a + b)[k] == b[k - a.len()]);
            }
        }
    }
}

// ---------------------------------------------------------------------
// Executable operations
// ---------------------------------------------------------------------

/// The maximal runs of non-whitespace characters of `v[from..to]`
/// (`str::split_whitespace`), as strings.
pub fn ws_tokens_of(v: &Vec<char>, from: usize, to: usize) -> (r: Vec<String>)
    requires
        from <= to <= v.len(),
    ensures
        strings_view(r@) == ws_tokens(v@.subrange(from as int, to as int)),
{
    let ghost s = v@.subrange(from as int, to as int);
    let mut done: Vec<String> = Vec::new();
    let mut start: usize = from;
    let mut in_token = false;
    let mut i: usize = from;
    assert(s.take(0) =~= Seq::<char>::empty());
    while i < to
        invariant
            from <= start <= i <= to <= v.len(),
            s == v@.subrange(from as int, to as int),
            in_token ==> (start < i && (start == from || is_ws(v@[start - 1]))
                && forall|m: int| start <= m < i ==> !is_ws(#[trigger] v@[m])),
            !in_token ==> (i == from || is_ws(v@[i - 1])),
            ws_tokens(s.take(i - from)) == strings_view(done@) + (if in_token {
                seq![v@.subrange(start as int, i as int)]
            } else {
                Seq::empty()
            }),
        decreases to - i,
    {
        let ghost t = s.take(i + 1 - from);
        assert(t.drop_last() =~= s.take(i - from));
        assert(t.last() == v@[i as int]);
        if i > from {
            assert(t[t.len() - 2] == v@[i - 1]);
        }
        let c = v[i];
        if is_whitespace(c) {
            if in_token {
                let ghost before = strings_view(done@);
                let tok = crate::text::string_of_range(v, start, i);
                done.push(tok);
                assert(strings_view(done@) =~= before.push(tok@));
                assert(before + seq![v@.subrange(start as int, i as int)] =~= before.push(
                    tok@,
                ));
                assert(strings_view(done@) + Seq::<Seq<char>>::empty() =~= strings_view(done@));
                in_token = false;
            }
        } else {
            if !in_token {
                start = i;
                in_token = true;
                assert(v@.subrange(i as int, i + 1) =~= seq![c]);
                assert(strings_view(done@) + Seq::<Seq<char>>::empty() =~= strings_view(done@));
            } else {
                let ghost p = strings_view(done@) + seq![v@.subrange(start as int, i as int)];
                assert(v@.subrange(start as int, i + 1) =~= v@.subrange(start as int, i as int).push(c));
                assert(p.update(p.len() - 1, p.last().push(c)) =~= strings_view(done@) + seq![v@.subrange(start as int, i + 1)]);
            }
        }
        i = i + 1;
    }
    assert(s.take(to - from) =~= s);
    if in_token {
        let ghost before = strings_view(done@);
        let tok = crate::text::string_of_range(v, start, to);
        done.push(tok);
        assert(strings_view(done@) =~= before + seq![v@.subrange(start as int, to as int)]);
    } else {
        assert(strings_view(done@) + Seq::<Seq<char>>::empty() =~= strings_view(done@));
    }
    done
}

/// The entries of one line.
fn line_entries_of(line: &str) -> (r: Vec<ConfigEntry>)
    ensures
        entries_view(r@) == line_entries(line@),
{
    let v = chars_of(line);
    let n = v.len();
    let (a, b) = trim_bounds(&v, 0, n);
    assert(v@.subrange(0, n as int) =~= line@);
    let ghost t = trim(line@);
    assert(t == v@.subrange(a as int, b as int));
    let mut out: Vec<ConfigEntry> = Vec::new();
    if a == b || v[a] == '#' {
        assert(entries_view(out@) =~= Seq::<ConfigEntryView>::empty());
        return out;
    }
    assert(t[0] == v@[a as int]);
    // The keyword ends at the first whitespace character.
    let mut k = a;
    while k < b && !is_whitespace(v[k])
        invariant
            a <= k <= b <= n,
            n == v.len(),
            t == v@.subrange(a as int, b as int),
            first_ws_from(t, 0) == first_ws_from(t, k - a),
        decreases b - k,
    {
        assert(t[k - a] == v@[k as int]);
        k = k + 1;
    }
    let (rest_from, rest_to) = if k < b {
        assert(t[k - a] == v@[k as int]);
        assert(first_ws_from(t, 0) == Some((k - a) as int));
        let (c, d) = trim_bounds(&v, k + 1, b);
        assert(v@.subrange(k + 1, b as int) =~= t.skip(k - a + 1));
        (c, d)
    } else {
        assert(first_ws_from(t, 0) is None);
        (b, b)
    };
    let ghost (keyword, rest) = keyword_and_rest(t);
    assert(keyword =~= v@.subrange(a as int, k as int));
    assert(rest =~= v@.subrange(rest_from as int, rest_to as int));
    // The keyword, lower-cased.
    let mut kw: Vec<char> = Vec::new();
    let mut m = a;
    while m < k
        invariant
            a <= m <= k <= v.len(),
            kw@ == v@.subrange(a as int, m as int).map_values(|c: char| ascii_lower(c)),
        decreases k - m,
    {
        let c = v[m];
        let l = if 'A' <= c && c <= 'Z' {
            ((c as u32) + 32) as u8 as char
        } else {
            c
        };
        assert(l == ascii_lower(c)) by {
            if 'A' <= c && c <= 'Z' {
                assert((((c as u32) + 32) as u8) as char == (((c as u32) + 32) as char));
            }
        }
        kw.push(l);
        assert(v@.subrange(a as int, m + 1).map_values(|c: char| ascii_lower(c)) =~= v@.subrange(
            a as int,
            m as int,
        ).map_values(|c: char| ascii_lower(c)).push(l));
        m = m + 1;
    }
    let host_kw = chars_of("host");
    let include_kw = chars_of("include");
    let is_host = same_chars(&kw, &host_kw);
    let toks = ws_tokens_of(&v, rest_from, rest_to);
    let github_chars = chars_of(GITHUB_HOST);
    let ghost tv = strings_view(toks@);
    if is_host {
        let mut i: usize = 0;
        let ghost f = |x: Seq<char>| is_plain_alias(x);
        while i < toks.len()
            invariant
                i <= toks.len(),
                tv == strings_view(toks@),
                f == (|x: Seq<char>| is_plain_alias(x)),
                github_chars@ == GITHUB_HOST@,
                entries_view(out@) == tv.take(i as int).filter(f).map_values(
                    |x: Seq<char>| ConfigEntryView::Host(x),
                ),
            decreases toks.len() - i,
        {
            let tok = &toks[i];
            let tc = chars_of(tok.as_str());
            let nt = tc.len();
            let star = crate::text::contains_in(&tc, 0, nt, '*');
            let question = crate::text::contains_in(&tc, 0, nt, '?');
            let github = same_chars(&tc, &github_chars);
            assert(tc@.subrange(0, nt as int) =~= tc@);
            assert(tv.take(i + 1).drop_last() =~= tv.take(i as int));
            assert(tv.take(i + 1).last() == tok@);
            assert(tc@ == tok@);
            reveal(Seq::filter);
            assert(tv.take(i + 1).filter(f) == (if f(tok@) {
                tv.take(i as int).filter(f).push(tok@)
            } else {
                tv.take(i as int).filter(f)
            }));
            if !star && !question && !github {
                let ghost before = entries_view(out@);
                let e = ConfigEntry::Host(tok.clone());
                out.push(e);
                assert(entries_view(out@) =~= before.push(ConfigEntryView::Host(tok@)));
                assert(tv.take(i + 1).filter(f) == tv.take(i as int).filter(f).push(tok@));
                assert(tv.take(i + 1).filter(f).map_values(|x: Seq<char>| ConfigEntryView::Host(x))
                    =~= tv.take(i as int).filter(f).map_values(|x: Seq<char>| ConfigEntryView::Host(x)).push(ConfigEntryView::Host(tok@)));
            } else {
                assert(tv.take(i + 1).filter(f) == tv.take(i as int).filter(f));
            }
            i = i + 1;
        }
        assert(tv.take(toks.len() as int) =~= tv);
        return out;
    }
    let is_include = same_chars(&kw, &include_kw);
    if is_include {
        let mut i: usize = 0;
        while i < toks.len()
            invariant
                i <= toks.len(),
                tv == strings_view(toks@),
                entries_view(out@) == tv.take(i as int).map_values(
                    |x: Seq<char>| ConfigEntryView::Include(x),
                ),
            decreases toks.len() - i,
        {
            let ghost before = entries_view(out@);
            let e = ConfigEntry::Include(toks[i].clone());
            out.push(e);
            assert(entries_view(out@) =~= before.push(ConfigEntryView::Include(tv[i as int])));
            assert(tv.take(i + 1).map_values(|x: Seq<char>| ConfigEntryView::Include(x)) =~= tv.take(
                i as int,
            ).map_values(|x: Seq<char>| ConfigEntryView::Include(x)).push(ConfigEntryView::Include(tv[i as int])));
            i = i + 1;
        }
        assert(tv.take(toks.len() as int) =~= tv);
        return out;
    }
    assert(entries_view(out@) =~= Seq::<ConfigEntryView>::empty());
    out
}

/// The `Host` aliases and `Include` patterns of a config file, in the
/// order they appear. Blank lines and `#` comments are skipped; wildcard
/// and pattern hosts (`*`, host globs with `*` or `?`, and `github.com`)
/// are not real machines one would ssh to by name and are skipped too.
pub fn config_entries(contents: &str) -> (r: Vec<ConfigEntry>)
    ensures
        entries_view(r@) == spec_config_entries(contents@),
{
    let ls = lines_of(contents);
    let ghost lv = lines(contents@);
    let mut out: Vec<ConfigEntry> = Vec::new();
    let mut i: usize = 0;
    assert(entries_view(out@) =~= lines_entries(lv.take(0)));
    while i < ls.len()
        invariant
            i <= ls.len(),
            ls@.map_values(|l: &str| l@) == lv,
            entries_view(out@) == lines_entries(lv.take(i as int)),
        decreases ls.len() - i,
    {
        let mut more = line_entries_of(ls[i]);
        let ghost before = entries_view(out@);
        let ghost added = entries_view(more@);
        out.append(&mut more);
        assert(entries_view(out@) =~= before + added);
        assert(lv.take(i + 1).drop_last() =~= lv.take(i as int));
        assert(lv.take(i + 1).last() == ls@[i as int]@);
        i = i + 1;
    }
    assert(lv.take(ls.len() as int) =~= lv);
    out
}

/// Where an `Include` pattern points: patterns starting with `/` or `~`
/// are expanded (`~/rest` under the home directory) rather than taken
/// relative to the including file.
pub fn include_target(pattern: &str) -> (r: IncludeTarget)
    ensures
        r@ == spec_include_target(pattern@),
{
    let v = chars_of(pattern);
    let n = v.len();
    if n > 0 && (v[0] == '/' || v[0] == '~') {
        let home = chars_of("~/");
        proof {
            reveal_strlit("~/");
            assert(home@ =~= seq!['~', '/']);
        }
        let has = range_has_prefix(&v, 0, n, &home);
        assert(v@.subrange(0, n as int) =~= v@);
        if has {
            let rest = crate::text::string_of_range(&v, 2, n);
            assert(rest@ =~= pattern@.skip(2));
            IncludeTarget::UnderHome(rest)
        } else {
            IncludeTarget::AsWritten
        }
    } else {
        IncludeTarget::BesideConfig
    }
}

/// How many levels of `Include` are followed below the main config file.
pub const INCLUDE_LEVELS: u8 = 1;

/// Whether a config file reached through `depth` levels of `Include` is
/// read: the main file and the files it includes, one level deep.
pub fn include_depth_followed(depth: u8) -> (r: bool)
    ensures
        r == (depth <= INCLUDE_LEVELS),
{
    depth <= INCLUDE_LEVELS
}

/// The aliases, sorted, each once: what the "Add host" dialog offers.
pub fn sorted_aliases(aliases: Vec<String>) -> (r: Vec<String>)
    ensures
        strictly_sorted(strings_view(r@)),
        strings_view(r@).to_set() == strings_view(aliases@).to_set(),
{
    sorted_unique(aliases)
}

} // verus!
