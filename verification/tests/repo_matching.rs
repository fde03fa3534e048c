use dockman::image_ref::{
    extract_matching_digest, find_matching_digest, image_repo, normalize_docker_repo,
};

#[test]
fn matches_official_image_against_library_prefix() {
    let json = r#"["docker.io/library/postgres@sha256:aaaa"]"#;
    assert_eq!(
        extract_matching_digest(json, "postgres:16"),
        Some("sha256:aaaa".to_string())
    );
}

#[test]
fn matches_two_part_hub_image_with_or_without_host_prefix() {
    let json = r#"["docker.io/valkey/valkey@sha256:bbbb"]"#;
    assert_eq!(
        extract_matching_digest(json, "valkey/valkey:7"),
        Some("sha256:bbbb".to_string())
    );
}

#[test]
fn matches_fully_qualified_third_party_image_unchanged() {
    let json = r#"["ghcr.io/flaresolverr/flaresolverr@sha256:cccc"]"#;
    assert_eq!(
        extract_matching_digest(json, "ghcr.io/flaresolverr/flaresolverr:latest"),
        Some("sha256:cccc".to_string())
    );
}

#[test]
fn unparsable_digest_list_gives_nothing() {
    assert_eq!(extract_matching_digest("not json", "postgres:16"), None);
    assert_eq!(extract_matching_digest("[1, 2]", "postgres:16"), None);
    assert_eq!(extract_matching_digest("[]", "postgres:16"), None);
}

#[test]
fn other_repositories_do_not_match() {
    let json = r#"["docker.io/library/redis@sha256:aaaa"]"#;
    assert_eq!(extract_matching_digest(json, "postgres:16"), None);
}

#[test]
fn first_matching_entry_wins() {
    let json = r#"["other/app@sha256:0000", "library/app@sha256:1111", "app@sha256:2222"]"#;
    assert_eq!(extract_matching_digest(json, "app:1"), Some("sha256:1111".to_string()));
}

#[test]
fn entry_without_at_is_skipped() {
    let entries = vec!["postgres".to_string(), "postgres@sha256:9".to_string()];
    assert_eq!(find_matching_digest(&entries, "postgres"), Some("sha256:9".to_string()));
}

#[test]
fn docker_hub_prefixes_are_stripped() {
    assert_eq!(normalize_docker_repo("postgres"), "postgres");
    assert_eq!(normalize_docker_repo("library/postgres"), "postgres");
    assert_eq!(normalize_docker_repo("docker.io/library/postgres"), "postgres");
    assert_eq!(normalize_docker_repo("index.docker.io/library/postgres"), "postgres");
    assert_eq!(normalize_docker_repo("index.docker.io/valkey/valkey"), "valkey/valkey");
    assert_eq!(normalize_docker_repo("docker.io/valkey/valkey"), "valkey/valkey");
    assert_eq!(normalize_docker_repo("valkey/valkey"), "valkey/valkey");
    assert_eq!(normalize_docker_repo("ghcr.io/a/b"), "ghcr.io/a/b");
}

#[test]
fn image_repo_strips_only_a_tag() {
    assert_eq!(image_repo("nginx:1.25"), "nginx");
    assert_eq!(image_repo("registry.local:5000/app:1.0"), "registry.local:5000/app");
    assert_eq!(image_repo("registry.local:5000/app"), "registry.local:5000/app");
    assert_eq!(image_repo("nginx"), "nginx");
}

#[test]
fn image_repo_is_the_parsed_repo_without_a_pin() {
    for image in ["nginx:1.25", "registry.local:5000/app:1.0", "a/b/c", "x:y/z"] {
        assert_eq!(image_repo(image), dockman::image_ref::parse_image_ref(image).repo);
    }
}
