//! Docker image references: splitting `[registry[:port]/]repo[:tag][@sha256:digest]`,
//! normalising Docker Hub names, and finding the running digest of an image
//! among the `RepoDigests` that `docker image inspect` reports.
use vstd::prelude::*;
use vstd::string::*;
use crate::text::{
    chars_of, contains_in, find, find_in, has_prefix, last_index_in, last_index_of,
    lemma_find_from, lemma_last_index_of, occurs_at, range_has_prefix, same_text,
    string_of_range,
};
use crate::model::opt_str_view;

verus! {

/// The prefix of a pinned digest.
pub const DIGEST_PREFIX: &'static str = "sha256:";

/// The parts of an image reference, borrowed from it.
#[derive(Debug)]
pub struct ParsedImageRef<'a> {
    pub repo: &'a str,
    pub tag: Option<&'a str>,
    pub digest: Option<&'a str>,
}

pub ghost struct ImageRefView {
    pub repo: Seq<char>,
    pub tag: Option<Seq<char>>,
    pub digest: Option<Seq<char>>,
}

impl<'a> View for ParsedImageRef<'a> {
    type V = ImageRefView;

    open spec fn view(&self) -> ImageRefView {
        ImageRefView { repo: self.repo@, tag: opt_str_view(self.tag), digest: opt_str_view(self.digest) }
    }
}

// ---------------------------------------------------------------------
// Specifications
// ---------------------------------------------------------------------

/// Splits off the text after the last `@` when it starts with `sha256:`:
/// `(name and tag, digest)`.
pub open spec fn split_digest(s: Seq<char>) -> (Seq<char>, Option<Seq<char>>) {
    match last_index_of(s, '@') {
        Some(i) => if has_prefix(s.skip(i + 1), DIGEST_PREFIX@) {
            (s.take(i), Some(s.skip(i + 1)))
        } else {
            (s, None)
        },
        None => (s, None),
    }
}

/// Splits off the text after the last `:` when it holds no `/` (a colon
/// before a `/` is a registry port): `(repo, tag)`.
pub open spec fn split_tag(s: Seq<char>) -> (Seq<char>, Option<Seq<char>>) {
    match last_index_of(s, ':') {
        Some(j) => if !s.skip(j + 1).contains('/') {
            (s.take(j), Some(s.skip(j + 1)))
        } else {
            (s, None)
        },
        None => (s, None),
    }
}

/// The parts of an image reference: the digest is split off first, then
/// the tag from what is left.
pub open spec fn spec_parse_image_ref(s: Seq<char>) -> ImageRefView {
    let (name_and_tag, digest) = split_digest(s);
    let (repo, tag) = split_tag(name_and_tag);
    ImageRefView { repo, tag, digest }
}

/// The repository of an image reference without a trailing `:tag`.
pub open spec fn spec_image_repo(s: Seq<char>) -> Seq<char> {
    split_tag(s).0
}

/// The parts written back as one reference.
pub open spec fn join_image_ref(p: ImageRefView) -> Seq<char> {
    p.repo + (match p.tag {
        Some(t) => seq![':'] + t,
        None => Seq::empty(),
    }) + (match p.digest {
        Some(d) => seq!['@'] + d,
        None => Seq::empty(),
    })
}

/// Removes the first of `prefixes` that `s` starts with.
pub open spec fn strip_first_prefix(s: Seq<char>, prefixes: Seq<Seq<char>>) -> Seq<char>
    decreases prefixes.len(),
{
    if prefixes.len() == 0 {
        s
    } else if has_prefix(s, prefixes[0]) {
        s.skip(prefixes[0].len() as int)
    } else {
        strip_first_prefix(s, prefixes.drop_first())
    }
}

/// The Docker Hub host and namespace prefixes, in the order they are tried.
pub open spec fn hub_prefixes() -> Seq<Seq<char>> {
    seq![
        "index.docker.io/library/"@,
        "index.docker.io/"@,
        "docker.io/library/"@,
        "docker.io/"@,
        "library/"@,
    ]
}

/// A repository name without the Docker Hub prefix it carries.
pub open spec fn spec_normalize_docker_repo(s: Seq<char>) -> Seq<char> {
    strip_first_prefix(s, hub_prefixes())
}

/// The normalised repository that the digests of `image` are matched against.
pub open spec fn digest_target(image: Seq<char>) -> Seq<char> {
    spec_normalize_docker_repo(spec_image_repo(image))
}

/// The digest of one `repo@digest` entry, when its repository matches `target`.
pub open spec fn entry_digest(entry: Seq<char>, target: Seq<char>) -> Option<Seq<char>> {
    match find(entry, seq!['@']) {
        Some(i) => if spec_normalize_docker_repo(entry.take(i)) == target {
            Some(entry.skip(i + 1))
        } else {
            None
        },
        None => None,
    }
}

/// The digest of the first entry whose repository matches `target`.
pub open spec fn first_entry_digest(entries: Seq<Seq<char>>, target: Seq<char>) -> Option<
    Seq<char>,
>
    decreases entries.len(),
{
    if entries.len() == 0 {
        None
    } else {
        match entry_digest(entries[0], target) {
            Some(d) => Some(d),
            None => first_entry_digest(entries.drop_first(), target),
        }
    }
}

/// What `serde_json` reads from `text` as a JSON array of strings.
pub uninterp spec fn json_string_list(text: Seq<char>) -> Option<Seq<Seq<char>>>;

/// The running digest that the JSON list of `RepoDigests` gives for `image`.
pub open spec fn spec_extract_matching_digest(json: Seq<char>, image: Seq<char>) -> Option<
    Seq<char>,
> {
    match json_string_list(json) {
        Some(entries) => first_entry_digest(entries, digest_target(image)),
        None => None,
    }
}

/// The views of a list of strings.
pub open spec fn strings_view(v: Seq<String>) -> Seq<Seq<char>> {
    v.map_values(|s: String| s@)
}

// ---------------------------------------------------------------------
// Laws
// ---------------------------------------------------------------------

/// Law: the parts of an image reference written back give the reference;
/// a tag holds no `/`, and a digest starts with `sha256:` and holds no `@`.
pub proof fn law_parse_image_ref_reassembles(s: Seq<char>)
    ensures
        join_image_ref(spec_parse_image_ref(s)) == s,
        spec_parse_image_ref(s).tag matches Some(t) ==> !t.contains('/'),
        spec_parse_image_ref(s).digest matches Some(d) ==> has_prefix(d, DIGEST_PREFIX@)
            && !d.contains('@'),
{
    lemma_last_index_of(s, '@');
    let (n, d) = split_digest(s);
    lemma_last_index_of(n, ':');
    let p = spec_parse_image_ref(s);
    let mid = match p.tag {
        Some(t) => seq![':'] + t,
        None => Seq::<char>::empty(),
    };
    let tail = match p.digest {
        Some(x) => seq!['@'] + x,
        None => Seq::<char>::empty(),
    };
    assert(p.repo + mid =~= n) by {
        if let Some(j) = last_index_of(n, ':') {
            if !n.skip(j + 1).contains('/') {
                assert(n.take(j) + (seq![':'] + n.skip(j + 1)) =~= n);
            }
        }
    }
    if let Some(i) = last_index_of(s, '@') {
        if has_prefix(s.skip(i + 1), DIGEST_PREFIX@) {
            assert(s.take(i) + (seq!['@'] + s.skip(i + 1)) =~= s);
            assert(!s.skip(i + 1).contains('@')) by {
                if s.skip(i + 1).contains('@') {
                    let k = choose|k: int| 0 <= k < s.skip(i + 1).len() && #[trigger] s.skip(i + 1)[k] == '@';
                    assert(s[i + 1 + k] == '@');
                }
            }
        }
    }
    assert(p.repo + mid + tail =~= n + tail);
}

/// Law: for a reference without `@`, the repository that `image_repo`
/// gives is the one that `parse_image_ref` gives.
pub proof fn law_image_repo_agrees_with_parse(s: Seq<char>)
    requires
        !s.contains('@'),
    ensures
        spec_image_repo(s) == spec_parse_image_ref(s).repo,
{
    lemma_last_index_of(s, '@');
}

/// Law: normalising keeps a suffix of the name, and changes nothing in a
/// name that starts with none of the Docker Hub prefixes.
pub proof fn law_normalize_keeps_suffix(s: Seq<char>)
    ensures
        spec_normalize_docker_repo(s).is_suffix_of(s),
        (forall|k: int| 0 <= k < hub_prefixes().len() ==> !has_prefix(s, #[trigger] hub_prefixes()[k]))
            ==> spec_normalize_docker_repo(s) == s,
{
    lemma_strip_first_prefix(s, hub_prefixes());
}

proof fn lemma_strip_first_prefix(s: Seq<char>, ps: Seq<Seq<char>>)
    ensures
        strip_first_prefix(s, ps).is_suffix_of(s),
        (forall|k: int| 0 <= k < ps.len() ==> !has_prefix(s, #[trigger] ps[k]))
            ==> strip_first_prefix(s, ps) == s,
    decreases ps.len(),
{
    if ps.len() == 0 {
        assert(s.subrange(0, s.len() as int) =~= s);
    } else if has_prefix(s, ps[0]) {
        let r = s.skip(ps[0].len() as int);
        assert(s.subrange(s.len() - r.len(), s.len() as int) =~= r);
    } else {
        lemma_strip_first_prefix(s, ps.drop_first());
        if forall|k: int| 0 <= k < ps.len() ==> !has_prefix(s, #[trigger] ps[k]) {
            assert forall|k: int| 0 <= k < ps.drop_first().len() implies !has_prefix(
                s,
                #[trigger] ps.drop_first()[k],
            ) by {
                assert(ps.drop_first()[k] == ps[k + 1]);
            }
        }
    }
}

/// Law: the digest found is that of the first matching entry; none is
/// found exactly when no entry matches.
pub proof fn law_found_digest_is_first_match(entries: Seq<Seq<char>>, target: Seq<char>)
    ensures
        first_entry_digest(entries, target) is None <==> forall|k: int|
            0 <= k < entries.len() ==> (#[trigger] entry_digest(entries[k], target)) is None,
        first_entry_digest(entries, target) matches Some(d) ==> exists|k: int|
            0 <= k < entries.len() && #[trigger] entry_digest(entries[k], target) == Some(d)
                && forall|j: int| 0 <= j < k ==> (#[trigger] entry_digest(entries[j], target)) is None,
    decreases entries.len(),
{
    if entries.len() > 0 {
        let rest = entries.drop_first();
        law_found_digest_is_first_match(rest, target);
        assert forall|k: int| 0 <= k < rest.len() implies entry_digest(rest[k], target)
            == entry_digest(entries[k + 1], target) by {
            assert(rest[k] == entries[k + 1]);
        }
        if let Some(d) = entry_digest(entries[0], target) {
            assert(entry_digest(entries[0], target) == Some(d));
        } else {
            if let Some(d) = first_entry_digest(entries, target) {
                let k = choose|k: int|
                    0 <= k < rest.len() && #[trigger] entry_digest(rest[k], target) == Some(d)
                        && forall|j: int| 0 <= j < k ==> (#[trigger] entry_digest(rest[j], target)) is None;
                assert(entry_digest(entries[k + 1], target) == Some(d));
                assert forall|j: int| 0 <= j < k + 1 implies (#[trigger] entry_digest(entries[j], target)) is None by {
                    if j > 0 {
                        assert(entry_digest(rest[j - 1], target) is None);
                    }
                }
            } else {
                assert forall|k: int| 0 <= k < entries.len() implies (#[trigger] entry_digest(entries[k], target)) is None by {
                    if k > 0 {
                        assert(entry_digest(rest[k - 1], target) is None);
                    }
                }
            }
        }
    }
}

/// The repository of `r:t` is `r` when the tag `t` holds no `:` or `/`.
proof fn lemma_image_repo_of_tagged(r: Seq<char>, t: Seq<char>)
    requires
        !t.contains(':'),
        !t.contains('/'),
    ensures
        spec_image_repo(r + seq![':'] + t) == r,
{
    let s = r + seq![':'] + t;
    lemma_last_index_of(s, ':');
    assert(s[r.len() as int] == ':');
    let j = last_index_of(s, ':')->0;
    assert(j == r.len()) by {
        if j > r.len() {
            assert(s[j] == t[j - r.len() - 1]);
        }
    }
    assert(s.skip(j + 1) =~= t);
    assert(s.take(j) =~= r);
}

/// The first `@` of `e@d` is the one after `e` when `e` holds no `@`.
proof fn lemma_find_at_of_entry(e: Seq<char>, d: Seq<char>)
    requires
        !e.contains('@'),
    ensures
        find(e + seq!['@'] + d, seq!['@']) == Some(e.len() as int),
        (e + seq!['@'] + d).take(e.len() as int) == e,
        (e + seq!['@'] + d).skip(e.len() as int + 1) == d,
{
    let s = e + seq!['@'] + d;
    let at = seq!['@'];
    lemma_find_from(s, at, 0);
    assert(s.subrange(e.len() as int, e.len() as int + 1) =~= at);
    assert(occurs_at(s, at, e.len() as int));
    let i = find(s, at)->0;
    assert(i == e.len()) by {
        if i < e.len() {
            assert(s.subrange(i, i + 1)[0] == s[i]);
            assert(s[i] == e[i]);
        }
    }
    assert(s.take(e.len() as int) =~= e);
    assert(s.skip(e.len() as int + 1) =~= d);
}

/// Law: a `RepoDigests` entry `e@d` gives the running digest `d` of an
/// image `r:t` whenever `e` and `r` name the same repository once Docker
/// Hub prefixes are stripped from both; in particular the image's own
/// repository always matches, with or without a Hub prefix on either side.
pub proof fn law_same_repository_matches(e: Seq<char>, d: Seq<char>, r: Seq<char>, t: Seq<char>)
    requires
        !e.contains('@'),
        !t.contains(':'),
        !t.contains('/'),
        spec_normalize_docker_repo(e) == spec_normalize_docker_repo(r),
    ensures
        first_entry_digest(seq![e + seq!['@'] + d], digest_target(r + seq![':'] + t)) == Some(d),
        first_entry_digest(seq![e + seq!['@'] + d], digest_target(r)) == Some(d) || r.contains(':'),
{
    lemma_image_repo_of_tagged(r, t);
    lemma_find_at_of_entry(e, d);
    let es = seq![e + seq!['@'] + d];
    assert(es[0] == e + seq!['@'] + d);
    if !r.contains(':') {
        lemma_last_index_of(r, ':');
    }
}

/// Law: an entry whose repository, Hub prefixes stripped, differs from the
/// image's gives no digest.
pub proof fn law_other_repository_does_not_match(e: Seq<char>, d: Seq<char>, image: Seq<char>)
    requires
        !e.contains('@'),
        spec_normalize_docker_repo(e) != digest_target(image),
    ensures
        first_entry_digest(seq![e + seq!['@'] + d], digest_target(image)) is None,
{
    lemma_find_at_of_entry(e, d);
    let es = seq![e + seq!['@'] + d];
    assert(es[0] == e + seq!['@'] + d);
    assert(es.drop_first().len() == 0);
    assert(first_entry_digest(es.drop_first(), digest_target(image)) is None);
    assert(entry_digest(es[0], digest_target(image)) is None);
}

// ---------------------------------------------------------------------
// Executable operations
// ---------------------------------------------------------------------

/// Parses `[registry[:port]/]repo[:tag][@sha256:digest]`. The digest suffix
/// holds a colon of its own, so it is split off first, and the tag is then
/// taken from what is left.
pub fn parse_image_ref<'a>(image: &'a str) -> (r: ParsedImageRef<'a>)
    ensures
        r@ == spec_parse_image_ref(image@),
{
    let v = chars_of(image);
    let n = v.len();
    let prefix = chars_of(DIGEST_PREFIX);
    let mut name_end = n;
    let mut digest: Option<&'a str> = None;
    proof {
        assert(v@.take(n as int) =~= v@);
    }
    match last_index_in(&v, n, '@') {
        Some(i) => {
            let has = range_has_prefix(&v, i + 1, n, &prefix);
            proof {
                assert(v@.skip(i + 1) =~= v@.subrange(i + 1, n as int));
            }
            if has {
                name_end = i;
                digest = Some(image.substring_char(i + 1, n));
            }
        },
        None => {},
    }
    let ghost nt = split_digest(v@).0;
    assert(nt =~= v@.take(name_end as int));
    assert(opt_str_view(digest) == split_digest(v@).1);
    let mut repo_end = name_end;
    let mut tag: Option<&'a str> = None;
    match last_index_in(&v, name_end, ':') {
        Some(j) => {
            let slash = contains_in(&v, j + 1, name_end, '/');
            proof {
                assert(nt.skip(j + 1) =~= v@.subrange(j + 1, name_end as int));
            }
            if !slash {
                repo_end = j;
                tag = Some(image.substring_char(j + 1, name_end));
                proof {
                    assert(nt.take(j as int) =~= v@.subrange(0, j as int));
                }
            }
        },
        None => {},
    }
    let repo = image.substring_char(0, repo_end);
    assert(repo@ =~= split_tag(nt).0);
    ParsedImageRef { repo, tag, digest }
}

/// `"nginx:1.25"` gives `"nginx"`, `"registry.local:5000/app:1.0"` gives
/// `"registry.local:5000/app"`, `"nginx"` gives `"nginx"`: a trailing
/// `:tag` is stripped only when the text after the last colon holds no `/`.
pub fn image_repo<'a>(image: &'a str) -> (r: &'a str)
    ensures
        r@ == spec_image_repo(image@),
{
    let v = chars_of(image);
    let n = v.len();
    assert(v@.take(n as int) =~= v@);
    match last_index_in(&v, n, ':') {
        Some(j) => {
            let slash = contains_in(&v, j + 1, n, '/');
            assert(v@.skip(j + 1) =~= v@.subrange(j + 1, n as int));
            if !slash {
                let r = image.substring_char(0, j);
                assert(r@ =~= v@.take(j as int));
                r
            } else {
                image
            }
        },
        None => image,
    }
}

/// `s` without the prefix `p`, when it starts with it.
fn strip_prefix_of<'a>(s: &'a str, v: &Vec<char>, p: &str) -> (r: Option<&'a str>)
    requires
        v@ == s@,
    ensures
        has_prefix(s@, p@) ==> (r matches Some(t) && t@ == s@.skip(p@.len() as int)),
        !has_prefix(s@, p@) ==> r is None,
{
    let pv = chars_of(p);
    let n = v.len();
    let has = range_has_prefix(v, 0, n, &pv);
    assert(v@.subrange(0, n as int) =~= v@);
    if has {
        let t = s.substring_char(pv.len(), n);
        assert(t@ =~= s@.skip(p@.len() as int));
        Some(t)
    } else {
        None
    }
}

/// Strips whichever Docker Hub host/namespace prefix is present, so
/// "postgres", "library/postgres", "docker.io/library/postgres" and
/// "index.docker.io/library/postgres" all give "postgres", and
/// "valkey/valkey" is the same with or without "docker.io/".
pub fn normalize_docker_repo<'a>(repo: &'a str) -> (r: &'a str)
    ensures
        r@ == spec_normalize_docker_repo(repo@),
{
    let v = chars_of(repo);
    let ghost ps = hub_prefixes();
    proof {
        reveal_with_fuel(strip_first_prefix, 6);
        let p1 = ps.drop_first();
        let p2 = p1.drop_first();
        let p3 = p2.drop_first();
        let p4 = p3.drop_first();
        assert(ps[0] == "index.docker.io/library/"@);
        assert(p1[0] == "index.docker.io/"@);
        assert(p2[0] == "docker.io/library/"@);
        assert(p3[0] == "docker.io/"@);
        assert(p4[0] == "library/"@);
        assert(p4.drop_first().len() == 0);
    }
    if let Some(t) = strip_prefix_of(repo, &v, "index.docker.io/library/") {
        return t;
    }
    if let Some(t) = strip_prefix_of(repo, &v, "index.docker.io/") {
        return t;
    }
    if let Some(t) = strip_prefix_of(repo, &v, "docker.io/library/") {
        return t;
    }
    if let Some(t) = strip_prefix_of(repo, &v, "docker.io/") {
        return t;
    }
    if let Some(t) = strip_prefix_of(repo, &v, "library/") {
        return t;
    }
    repo
}

/// The digest of the first `repo@digest` entry whose repository matches
/// `image`'s, both sides normalised.
pub fn find_matching_digest(entries: &Vec<String>, image: &str) -> (r: Option<String>)
    ensures
        crate::model::opt_view(r) == first_entry_digest(strings_view(entries@), digest_target(image@)),
{
    let target = normalize_docker_repo(image_repo(image));
    let ghost es = strings_view(entries@);
    let at = chars_of("@");
    proof {
        reveal_strlit("@");
        assert(at@ =~= seq!['@']);
    }
    let mut k: usize = 0;
    assert(es.skip(0) =~= es);
    while k < entries.len()
        invariant
            k <= entries.len(),
            es == strings_view(entries@),
            at@ == seq!['@'],
            target@ == digest_target(image@),
            first_entry_digest(es, target@) == first_entry_digest(es.skip(k as int), target@),
        decreases entries.len() - k,
    {
        let entry = entries[k].as_str();
        let ev = chars_of(entry);
        assert(es.skip(k as int)[0] == entry@);
        assert(es.skip(k as int).drop_first() =~= es.skip(k + 1));
        match find_in(&ev, &at, 0) {
            Some(i) => {
                proof {
                    lemma_find_from(ev@, at@, 0);
                    assert(occurs_at(ev@, at@, i as int));
                    assert(i + 1 <= ev@.len());
                    assert(find(entry@, seq!['@']) == Some(i as int));
                }
                assert(i < ev.len());
                let entry_repo = entry.substring_char(0, i);
                assert(entry_repo@ =~= entry@.take(i as int));
                let normalized = normalize_docker_repo(entry_repo);
                if same_text(normalized, target) {
                    let d = string_of_range(&ev, i + 1, ev.len());
                    assert(d@ =~= entry@.skip(i + 1));
                    return Some(d);
                }
            },
            None => {},
        }
        k = k + 1;
    }
    None
}

/// Reads `text` with `serde_json::from_str::<Vec<String>>`. The contract
/// claims only that the outcome is the one named by `json_string_list` for
/// that text (the same text always reads the same way); which texts are
/// JSON arrays of strings, and which strings they hold, is not stated.
#[verifier::external_body]
fn parse_json_string_list(text: &str) -> (r: Option<Vec<String>>)
    ensures
        match r {
            Some(v) => json_string_list(text@) == Some(strings_view(v@)),
            None => json_string_list(text@) is None,
        },
{
    serde_json::from_str::<Vec<String>>(text).ok()
}

/// `docker image inspect --format '{{json .RepoDigests}}'` gives entries
/// like `"myrepo/app@sha256:abcd..."`: the digest part of the one whose
/// repository matches `image`'s (tag ignored). Docker stores official
/// single-word images under an implicit `docker.io/library/` prefix, so
/// both sides are normalised before they are compared.
pub fn extract_matching_digest(repo_digests_json: &str, image: &str) -> (r: Option<String>)
    ensures
        crate::model::opt_view(r) == spec_extract_matching_digest(repo_digests_json@, image@),
{
    match parse_json_string_list(repo_digests_json) {
        Some(entries) => find_matching_digest(&entries, image),
        None => None,
    }
}

} // verus!
