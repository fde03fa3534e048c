//! The image version check: the remote script that reads the local
//! `RepoDigests` and hashes the registry manifest of the floating tag, and
//! the reading of what it prints into an up-to-date / update-available /
//! unknown verdict.
use vstd::prelude::*;
use vstd::string::*;
use vstd::utf8::encode_utf8;
use crate::text::{
    chars_of, find, find_in, lemma_find_from, lemma_trim_leading_ws, lemma_trim_trailing_ws,
    occurs_at, trim, trim_bounds,
};
use crate::quoting::{
    bash_double_quote, dq_escape, lemma_dq_escape_no_single_quote, lemma_sq_escape_plain,
    shell_quote, spec_bash_double_quote, spec_shell_quote,
};
use crate::image_ref::{
    extract_matching_digest, parse_image_ref, spec_extract_matching_digest,
    spec_parse_image_ref, DIGEST_PREFIX,
};
use crate::model::{opt_view, ImageVersionInfo, ImageVersionInfoView, SshReply, VersionStatus};

verus! {

/// The line that the remote script prints between its two results.
pub const SPLIT_MARKER: &'static str = "---DOCKMAN-SPLIT---";

/// Start of the script: read the local `RepoDigests` of the image.
pub const SCRIPT_LOCAL: &'static str = "LOCAL=$(docker image inspect ";

/// After the image: the format of the inspection, and `[]` when it fails.
pub const SCRIPT_LOCAL_END: &'static str = " --format \"{{json .RepoDigests}}\" 2>/dev/null || echo \"[]\"); ";

/// Fetch the raw manifest of the registry reference.
pub const SCRIPT_REMOTE: &'static str = "REMOTE_HASH=$(docker buildx imagetools inspect ";

/// After the registry reference: hash the manifest with `sha256sum`, or
/// `shasum -a 256` where that is missing.
pub const SCRIPT_REMOTE_END: &'static str = " --raw 2>/dev/null | (sha256sum 2>/dev/null || shasum -a 256) | cut -d\" \" -f1); ";

/// Print both results around the marker line.
pub const SCRIPT_PRINT: &'static str = "printf \"%s\\n---DOCKMAN-SPLIT---\\n%s\\n\" \"$LOCAL\" \"$REMOTE_HASH\"";

/// The command that runs the script under bash, whatever the login shell.
pub const SCRIPT_RUNNER: &'static str = "bash -c ";

// ---------------------------------------------------------------------
// Specifications
// ---------------------------------------------------------------------

/// The bash script, before it is quoted for the login shell.
pub open spec fn spec_inner_script(image: Seq<char>, registry_ref: Seq<char>) -> Seq<char> {
    SCRIPT_LOCAL@ + spec_bash_double_quote(image) + SCRIPT_LOCAL_END@ + SCRIPT_REMOTE@
        + spec_bash_double_quote(registry_ref) + SCRIPT_REMOTE_END@ + SCRIPT_PRINT@
}

/// The remote command of the version check.
pub open spec fn spec_version_check_script(image: Seq<char>, registry_ref: Seq<char>) -> Seq<
    char,
> {
    SCRIPT_RUNNER@ + spec_shell_quote(spec_inner_script(image, registry_ref))
}

/// The floating `repo:tag` (or `repo`) that the registry is asked about;
/// never the pinned digest.
pub open spec fn spec_registry_ref(image: Seq<char>) -> Seq<char> {
    let p = spec_parse_image_ref(image);
    match p.tag {
        Some(t) => p.repo + seq![':'] + t,
        None => p.repo,
    }
}

/// An ASCII hexadecimal digit, as a byte.
pub open spec fn is_hex_byte(b: u8) -> bool {
    ||| 0x30 <= b <= 0x39
    ||| 0x61 <= b <= 0x66
    ||| 0x41 <= b <= 0x46
}

/// A SHA-256 digest in hex: 64 bytes, each a hex digit.
pub open spec fn spec_is_sha256_hex(s: Seq<char>) -> bool {
    let b = encode_utf8(s);
    b.len() == 64 && forall|i: int| 0 <= i < 64 ==> is_hex_byte(#[trigger] b[i])
}

/// The two results of the script: the text before the first marker and
/// the text after it (empty without a marker), each trimmed.
pub open spec fn output_parts(out: Seq<char>) -> (Seq<char>, Seq<char>) {
    match find(out, SPLIT_MARKER@) {
        Some(i) => (trim(out.take(i)), trim(out.skip(i + SPLIT_MARKER@.len()))),
        None => (trim(out), Seq::empty()),
    }
}

/// The digest of the running image: the pinned one, or else the one that
/// the local `RepoDigests` give for the image.
pub open spec fn spec_running_digest(
    image: Seq<char>,
    embedded: Option<Seq<char>>,
    local_json: Seq<char>,
) -> Option<Seq<char>> {
    match embedded {
        Some(d) => Some(d),
        None => spec_extract_matching_digest(local_json, image),
    }
}

/// The digest the registry serves now, when the hash printed is one.
pub open spec fn spec_latest_digest(remote_hash: Seq<char>) -> Option<Seq<char>> {
    if spec_is_sha256_hex(remote_hash) {
        Some(DIGEST_PREFIX@ + remote_hash)
    } else {
        None
    }
}

/// Up to date when both digests are known and equal, an update when both
/// are known and differ, unknown otherwise.
pub open spec fn spec_version_status(running: Option<Seq<char>>, latest: Option<Seq<char>>) -> VersionStatus {
    match (running, latest) {
        (Some(a), Some(b)) => if a == b {
            VersionStatus::UpToDate
        } else {
            VersionStatus::UpdateAvailable
        },
        _ => VersionStatus::Unknown,
    }
}

/// The verdict on `image` from the reply of the version check.
pub open spec fn spec_version_info(
    image: Seq<char>,
    embedded: Option<Seq<char>>,
    reply: SshReply,
) -> ImageVersionInfoView {
    match reply {
        SshReply::Unreachable { .. } => ImageVersionInfoView {
            image,
            status: VersionStatus::Unknown,
            running_digest: embedded,
            latest_digest: None,
        },
        SshReply::Completed { output, .. } => {
            let (local_json, remote_hash) = output_parts(output@);
            let running = spec_running_digest(image, embedded, local_json);
            let latest = spec_latest_digest(remote_hash);
            ImageVersionInfoView {
                image,
                status: spec_version_status(running, latest),
                running_digest: running,
                latest_digest: latest,
            }
        },
    }
}

// ---------------------------------------------------------------------
// Laws
// ---------------------------------------------------------------------

proof fn lemma_concat_no_sq(a: Seq<char>, b: Seq<char>)
    requires
        !a.contains('\''),
        !b.contains('\''),
    ensures
        !(a + b).contains('\''),
{
    assert forall|k: int| 0 <= k < (a + b).len() implies (a + b)[k] != '\'' by {
        if k < a.len() {
            assert((a + b)[k] == a[k]);
        } else {
            assert((a + b)[k] == b[k - a.len()]);
        }
    }
}

proof fn lemma_no_sq_dq(s: Seq<char>)
    requires
        !s.contains('\''),
    ensures
        !spec_bash_double_quote(s).contains('\''),
{
    lemma_dq_escape_no_single_quote(s);
    assert(!seq!['"'].contains('\'')) by {
        if seq!['"'].contains('\'') {
            assert(seq!['"'][0] == '"');
        }
    }
    lemma_concat_no_sq(seq!['"'], dq_escape(s));
    lemma_concat_no_sq(seq!['"'] + dq_escape(s), seq!['"']);
}

proof fn lemma_literal_no_sq(s: Seq<char>)
    requires
        forall|k: int| 0 <= k < s.len() ==> s[k] != '\'',
    ensures
        !s.contains('\''),
{
}

/// Law: when neither the image nor the registry reference holds a single
/// quote, the bash script holds none, so the login shell hands it to
/// `bash -c` unchanged inside one pair of single quotes.
pub proof fn law_script_passes_through_login_shell(image: Seq<char>, registry_ref: Seq<char>)
    requires
        !image.contains('\''),
        !registry_ref.contains('\''),
    ensures
        !spec_inner_script(image, registry_ref).contains('\''),
        spec_version_check_script(image, registry_ref) == SCRIPT_RUNNER@ + seq!['\'']
            + spec_inner_script(image, registry_ref) + seq!['\''],
{
    reveal_strlit("LOCAL=$(docker image inspect ");
    reveal_strlit(" --format \"{{json .RepoDigests}}\" 2>/dev/null || echo \"[]\"); ");
    reveal_strlit("REMOTE_HASH=$(docker buildx imagetools inspect ");
    reveal_strlit(" --raw 2>/dev/null | (sha256sum 2>/dev/null || shasum -a 256) | cut -d\" \" -f1); ");
    reveal_strlit("printf \"%s\\n---DOCKMAN-SPLIT---\\n%s\\n\" \"$LOCAL\" \"$REMOTE_HASH\"");
    lemma_literal_no_sq(SCRIPT_LOCAL@);
    lemma_literal_no_sq(SCRIPT_LOCAL_END@);
    lemma_literal_no_sq(SCRIPT_REMOTE@);
    lemma_literal_no_sq(SCRIPT_REMOTE_END@);
    lemma_literal_no_sq(SCRIPT_PRINT@);
    lemma_no_sq_dq(image);
    lemma_no_sq_dq(registry_ref);
    let a = SCRIPT_LOCAL@ + spec_bash_double_quote(image);
    lemma_concat_no_sq(SCRIPT_LOCAL@, spec_bash_double_quote(image));
    lemma_concat_no_sq(a, SCRIPT_LOCAL_END@);
    lemma_concat_no_sq(a + SCRIPT_LOCAL_END@, SCRIPT_REMOTE@);
    lemma_concat_no_sq(a + SCRIPT_LOCAL_END@ + SCRIPT_REMOTE@, spec_bash_double_quote(registry_ref));
    lemma_concat_no_sq(
        a + SCRIPT_LOCAL_END@ + SCRIPT_REMOTE@ + spec_bash_double_quote(registry_ref),
        SCRIPT_REMOTE_END@,
    );
    lemma_concat_no_sq(
        a + SCRIPT_LOCAL_END@ + SCRIPT_REMOTE@ + spec_bash_double_quote(registry_ref)
            + SCRIPT_REMOTE_END@,
        SCRIPT_PRINT@,
    );
    lemma_sq_escape_plain(spec_inner_script(image, registry_ref));
    assert(SCRIPT_RUNNER@ + spec_shell_quote(spec_inner_script(image, registry_ref)) =~= SCRIPT_RUNNER@
        + seq!['\''] + spec_inner_script(image, registry_ref) + seq!['\'']);
}

/// Law: the registry reference is the image reference without its pinned
/// digest, so a pin is never checked against itself.
pub proof fn law_registry_ref_drops_only_the_pin(image: Seq<char>)
    ensures
        spec_registry_ref(image) + (match spec_parse_image_ref(image).digest {
            Some(d) => seq!['@'] + d,
            None => Seq::empty(),
        }) == image,
{
    crate::image_ref::law_parse_image_ref_reassembles(image);
    let p = spec_parse_image_ref(image);
    match p.tag {
        Some(t) => {
            assert(p.repo + seq![':'] + t =~= p.repo + (seq![':'] + t));
        },
        None => {
            assert(p.repo + Seq::<char>::empty() =~= p.repo);
        },
    }
}

/// Law: the verdict is "up to date" exactly when both digests are known
/// and equal, and "update available" exactly when both are known and differ.
pub proof fn law_version_status(running: Option<Seq<char>>, latest: Option<Seq<char>>)
    ensures
        (spec_version_status(running, latest) == VersionStatus::UpToDate) <==> (running is Some
            && latest is Some && running == latest),
        (spec_version_status(running, latest) == VersionStatus::UpdateAvailable) <==> (running
            is Some && latest is Some && running != latest),
{
}

/// Law: the output is split at the first marker after the local result:
/// whatever follows the marker, trimmed, is read as the hash, and the local
/// result, trimmed, as the digest list, as long as the local result does
/// not itself hold the marker.
pub proof fn law_marker_splits_output(local: Seq<char>, rest: Seq<char>)
    requires
        find(local, SPLIT_MARKER@) is None,
    ensures
        output_parts(local + seq!['\n'] + SPLIT_MARKER@ + rest) == (trim(local), trim(rest)),
{
    let m = SPLIT_MARKER@;
    reveal_strlit("---DOCKMAN-SPLIT---");
    assert(!m.contains('\n'));
    let out = local + seq!['\n'] + m + rest;
    let at: int = local.len() as int + 1;
    lemma_find_from(local, m, 0);
    lemma_find_from(out, m, 0);
    assert(out.subrange(at, at + m.len() as int) =~= m);
    assert(occurs_at(out, m, at));
    let i = find(out, m)->0;
    assert(i == at) by {
        if i < at {
            if i + m.len() <= local.len() {
                assert(out.subrange(i, i + m.len()) =~= local.subrange(i, i + m.len()));
                assert(occurs_at(local, m, i));
            } else {
                let k = local.len() - i;
                assert(out[local.len() as int] == '\n');
                assert(out.subrange(i, i + m.len())[k] == out[local.len() as int]);
                assert(m[k] == '\n');
            }
        }
    }
    assert(out.take(at) =~= local.push('\n'));
    lemma_trim_trailing_ws(local, '\n');
    assert(out.skip(at + m.len() as int) =~= rest);
}

/// Law: what reaches the reader is the script's printout with its final
/// newline trimmed away (the combined ssh output is trimmed): the local
/// result and the hash are read back, trimmed.
pub proof fn law_trimmed_output_reads_back(local: Seq<char>, hash: Seq<char>)
    requires
        find(local, SPLIT_MARKER@) is None,
    ensures
        output_parts(local + seq!['\n'] + SPLIT_MARKER@ + seq!['\n'] + hash) == (
            trim(local),
            trim(hash),
        ),
{
    law_marker_splits_output(local, seq!['\n'] + hash);
    assert(local + seq!['\n'] + SPLIT_MARKER@ + seq!['\n'] + hash =~= local + seq!['\n']
        + SPLIT_MARKER@ + (seq!['\n'] + hash));
    lemma_trim_leading_ws('\n', hash);
}

/// Law: what the script prints, its local result, the marker line and
/// the hash, each on a line, is read back as those two results, trimmed,
/// as long as the local result does not itself hold the marker.
pub proof fn law_version_output_reads_back(local: Seq<char>, hash: Seq<char>)
    requires
        find(local, SPLIT_MARKER@) is None,
    ensures
        output_parts(local + seq!['\n'] + SPLIT_MARKER@ + seq!['\n'] + hash + seq!['\n']) == (
            trim(local),
            trim(hash),
        ),
{
    law_trimmed_output_reads_back(local, hash.push('\n'));
    assert(local + seq!['\n'] + SPLIT_MARKER@ + seq!['\n'] + hash + seq!['\n'] =~= local
        + seq!['\n'] + SPLIT_MARKER@ + seq!['\n'] + hash.push('\n'));
    lemma_trim_trailing_ws(hash, '\n');
}

/// Law: a completed check whose output carries a SHA-256 hex hash after
/// the marker reports the registry digest `sha256:<hash>`, whether or not
/// a newline ends the output; with a pinned digest equal to it the image
/// is up to date, and with a different pinned digest an update is
/// available.
pub proof fn law_version_info_reads_the_hash(
    image: Seq<char>,
    pinned: Seq<char>,
    reply: SshReply,
    local: Seq<char>,
    hash: Seq<char>,
)
    requires
        find(local, SPLIT_MARKER@) is None,
        spec_is_sha256_hex(trim(hash)),
        reply matches SshReply::Completed { output, .. } && output@ == local + seq!['\n']
            + SPLIT_MARKER@ + seq!['\n'] + hash,
    ensures
        spec_version_info(image, Some(pinned), reply).latest_digest == Some(
            DIGEST_PREFIX@ + trim(hash),
        ),
        spec_version_info(image, Some(pinned), reply).running_digest == Some(pinned),
        spec_version_info(image, Some(pinned), reply).status == if pinned == DIGEST_PREFIX@
            + trim(hash) {
            VersionStatus::UpToDate
        } else {
            VersionStatus::UpdateAvailable
        },
{
    law_trimmed_output_reads_back(local, hash);
}

// ---------------------------------------------------------------------
// Executable operations
// ---------------------------------------------------------------------

/// Whether `s` is 64 ASCII hex digits.
pub fn is_sha256_hex(s: &str) -> (r: bool)
    ensures
        r == spec_is_sha256_hex(s@),
{
    let b = s.as_bytes();
    if b.len() != 64 {
        return false;
    }
    let mut i: usize = 0;
    while i < b.len()
        invariant
            b@ == encode_utf8(s@),
            b@.len() == 64,
            i <= b@.len(),
            forall|k: int| 0 <= k < i ==> is_hex_byte(#[trigger] b@[k]),
        decreases b.len() - i,
    {
        let x = b[i];
        if !((0x30 <= x && x <= 0x39) || (0x61 <= x && x <= 0x66) || (0x41 <= x && x <= 0x46)) {
            return false;
        }
        i = i + 1;
    }
    true
}

/// The remote command of the version check: a small bash script that
/// reads the locally cached image's `RepoDigests`, fetches and hashes the
/// registry manifest of `registry_ref`, and prints both around a marker
/// line. The whole script is wrapped in `bash -c '...'`, since ssh runs
/// commands through the account's login shell, which need not be bash;
/// inside it the values are double-quoted.
pub fn version_check_script(image: &str, registry_ref: &str) -> (r: String)
    ensures
        r@ == spec_version_check_script(image@, registry_ref@),
{
    let img = bash_double_quote(image);
    let reg_ref = bash_double_quote(registry_ref);
    let mut inner = String::new();
    inner.append(SCRIPT_LOCAL);
    inner.append(img.as_str());
    inner.append(SCRIPT_LOCAL_END);
    inner.append(SCRIPT_REMOTE);
    inner.append(reg_ref.as_str());
    inner.append(SCRIPT_REMOTE_END);
    inner.append(SCRIPT_PRINT);
    assert(inner@ =~= spec_inner_script(image@, registry_ref@));
    let mut out = SCRIPT_RUNNER.to_owned();
    let quoted = shell_quote(inner.as_str());
    out.append(quoted.as_str());
    out
}

/// What the version check of an image is made of: the digest that the
/// reference pins, the floating reference that the registry is asked
/// about, and the remote command.
pub struct VersionCheckPlan {
    pub embedded_digest: Option<String>,
    pub registry_ref: String,
    pub script: String,
}

/// The plan of the version check of `image`. If the compose file pins a
/// digest (`repo:tag@sha256:...`), that digest is the running version; the
/// registry lookup always targets `repo:tag`, never the pin itself.
pub fn plan_version_check(image: &str) -> (p: VersionCheckPlan)
    ensures
        opt_view(p.embedded_digest) == spec_parse_image_ref(image@).digest,
        p.registry_ref@ == spec_registry_ref(image@),
        p.script@ == spec_version_check_script(image@, spec_registry_ref(image@)),
{
    let parsed = parse_image_ref(image);
    let embedded_digest = match parsed.digest {
        Some(d) => Some(d.to_owned()),
        None => None,
    };
    let mut registry_ref = parsed.repo.to_owned();
    match parsed.tag {
        Some(t) => {
            push_colon(&mut registry_ref);
            registry_ref.append(t);
        },
        None => {},
    }
    let script = version_check_script(image, registry_ref.as_str());
    VersionCheckPlan { embedded_digest, registry_ref, script }
}

fn push_colon(s: &mut String)
    ensures
        final(s)@ == old(s)@.push(':'),
{
    crate::text::push_char(s, ':');
}

/// The verdict on `image` from the reply of its version check, given the
/// digest that the reference pins. The output is split at the marker line;
/// the first part is the JSON list of local `RepoDigests`, the second the
/// hash of the registry manifest.
pub fn interpret_version_output(
    image: &str,
    embedded_digest: Option<String>,
    reply: &SshReply,
) -> (r: ImageVersionInfo)
    ensures
        r@ == spec_version_info(image@, opt_view(embedded_digest), *reply),
{
    match reply {
        SshReply::Unreachable { .. } => ImageVersionInfo {
            image: image.to_owned(),
            status: VersionStatus::Unknown,
            running_digest: embedded_digest,
            latest_digest: None,
        },
        SshReply::Completed { output, .. } => {
            let out = output.as_str();
            let v = chars_of(out);
            let marker = chars_of(SPLIT_MARKER);
            let n = v.len();
            let (local_json, remote_hash): (&str, &str) = match find_in(&v, &marker, 0) {
                Some(i) => {
                    proof {
                        lemma_find_from(v@, marker@, 0);
                        assert(occurs_at(v@, marker@, i as int));
                    }
                    let (a, b) = trim_bounds(&v, 0, i);
                    let (c, d) = trim_bounds(&v, i + marker.len(), n);
                    proof {
                        assert(v@.subrange(0, i as int) =~= v@.take(i as int));
                        assert(v@.subrange(i + marker@.len(), n as int) =~= v@.skip(
                            i + marker@.len(),
                        ));
                    }
                    (out.substring_char(a, b), out.substring_char(c, d))
                },
                None => {
                    let (a, b) = trim_bounds(&v, 0, n);
                    assert(v@.subrange(0, n as int) =~= v@);
                    (out.substring_char(a, b), "")
                },
            };
            proof {
                reveal_strlit("");
            }
            assert((local_json@, remote_hash@) == output_parts(output@));
            let running_digest = match &embedded_digest {
                Some(d) => Some(d.clone()),
                None => extract_matching_digest(local_json, image),
            };
            let latest_digest = if is_sha256_hex(remote_hash) {
                let mut d = DIGEST_PREFIX.to_owned();
                d.append(remote_hash);
                Some(d)
            } else {
                None
            };
            let status = match (&running_digest, &latest_digest) {
                (Some(a), Some(b)) => if *a == *b {
                    VersionStatus::UpToDate
                } else {
                    VersionStatus::UpdateAvailable
                },
                _ => VersionStatus::Unknown,
            };
            ImageVersionInfo { image: image.to_owned(), status, running_digest, latest_digest }
        },
    }
}

} // verus!
