use dockman::model::{SshReply, VersionStatus};
use dockman::version_check::{
    interpret_version_output, is_sha256_hex, plan_version_check, version_check_script,
};

fn inner_script(image: &str, registry_ref: &str) -> String {
    format!(
        "LOCAL=$(docker image inspect \"{image}\" --format \"{{{{json .RepoDigests}}}}\" 2>/dev/null || echo \"[]\"); \
REMOTE_HASH=$(docker buildx imagetools inspect \"{registry_ref}\" --raw 2>/dev/null | (sha256sum 2>/dev/null || shasum -a 256) | cut -d\" \" -f1); \
printf \"%s\\n---DOCKMAN-SPLIT---\\n%s\\n\" \"$LOCAL\" \"$REMOTE_HASH\""
    )
}

#[test]
fn script_runs_under_bash_in_single_quotes() {
    let s = version_check_script("nginx:1.25", "nginx:1.25");
    assert_eq!(s, format!("bash -c '{}'", inner_script("nginx:1.25", "nginx:1.25")));
}

#[test]
fn plan_checks_the_floating_tag_not_the_pin() {
    let image = "postgres:16@sha256:1234";
    let p = plan_version_check(image);
    assert_eq!(p.embedded_digest, Some("sha256:1234".to_string()));
    assert_eq!(p.registry_ref, "postgres:16");
    assert_eq!(p.script, format!("bash -c '{}'", inner_script(image, "postgres:16")));
}

#[test]
fn plan_without_tag_or_pin() {
    let p = plan_version_check("redis");
    assert_eq!(p.embedded_digest, None);
    assert_eq!(p.registry_ref, "redis");
}

#[test]
fn sha256_hex_is_sixty_four_hex_digits() {
    let h = "0123456789abcdefABCDEF0123456789abcdef0123456789abcdef0123456789";
    assert_eq!(h.len(), 64);
    assert!(is_sha256_hex(h));
    assert!(!is_sha256_hex(&h[1..]));
    assert!(!is_sha256_hex(&format!("{h}0")));
    assert!(!is_sha256_hex(&format!("g{}", &h[1..])));
    assert!(!is_sha256_hex(""));
}

fn hex(c: char) -> String {
    std::iter::repeat(c).take(64).collect()
}

#[test]
fn up_to_date_when_digests_agree() {
    let a = hex('a');
    let output = format!("[\"docker.io/library/nginx@sha256:{a}\"]\n---DOCKMAN-SPLIT---\n{a}\n");
    let reply = SshReply::Completed { success: true, output };
    let info = interpret_version_output("nginx:1.25", None, &reply);
    assert_eq!(info.image, "nginx:1.25");
    assert_eq!(info.status, VersionStatus::UpToDate);
    assert_eq!(info.running_digest, Some(format!("sha256:{a}")));
    assert_eq!(info.latest_digest, Some(format!("sha256:{a}")));
}

#[test]
fn update_available_when_digests_differ() {
    let a = hex('a');
    let b = hex('b');
    let output = format!("  [\"nginx@sha256:{a}\"]  \n---DOCKMAN-SPLIT---\n  {b}  \n");
    let reply = SshReply::Completed { success: true, output };
    let info = interpret_version_output("nginx:1.25", None, &reply);
    assert_eq!(info.status, VersionStatus::UpdateAvailable);
    assert_eq!(info.running_digest, Some(format!("sha256:{a}")));
    assert_eq!(info.latest_digest, Some(format!("sha256:{b}")));
}

#[test]
fn pinned_digest_is_the_running_one() {
    let b = hex('b');
    let output = format!("[]\n---DOCKMAN-SPLIT---\n{b}\n");
    let reply = SshReply::Completed { success: true, output };
    let info = interpret_version_output("x@sha256:123", Some("sha256:123".to_string()), &reply);
    assert_eq!(info.running_digest, Some("sha256:123".to_string()));
    assert_eq!(info.status, VersionStatus::UpdateAvailable);
}

#[test]
fn unknown_without_registry_hash() {
    let output = "[\"nginx@sha256:1\"]\n---DOCKMAN-SPLIT---\n\n".to_string();
    let reply = SshReply::Completed { success: false, output };
    let info = interpret_version_output("nginx", None, &reply);
    assert_eq!(info.running_digest, Some("sha256:1".to_string()));
    assert_eq!(info.latest_digest, None);
    assert_eq!(info.status, VersionStatus::Unknown);
}

#[test]
fn unknown_without_marker() {
    let reply = SshReply::Completed { success: true, output: "garbage".to_string() };
    let info = interpret_version_output("nginx", None, &reply);
    assert_eq!(info.running_digest, None);
    assert_eq!(info.latest_digest, None);
    assert_eq!(info.status, VersionStatus::Unknown);
}

#[test]
fn unreachable_host_is_unknown_with_the_pin() {
    let reply = SshReply::Unreachable { message: "no route".to_string() };
    let info = interpret_version_output("x@sha256:9", Some("sha256:9".to_string()), &reply);
    assert_eq!(info.status, VersionStatus::Unknown);
    assert_eq!(info.running_digest, Some("sha256:9".to_string()));
    assert_eq!(info.latest_digest, None);
}
