use dockman::image_ref::parse_image_ref;

#[test]
fn plain_tag_no_digest() {
    let p = parse_image_ref("postgres:16");
    assert_eq!(p.repo, "postgres");
    assert_eq!(p.tag, Some("16"));
    assert_eq!(p.digest, None);
}

#[test]
fn immich_pinned_multi_dash_tag_with_digest() {
    let p = parse_image_ref(
        "ghcr.io/immich-app/postgres:14-vectorchord0.4.3-pgvectors0.2.0@sha256:bcf63357191b76a916ae5eb93464d65c07511da41e3bf7a8416db519b40b1c2",
    );
    assert_eq!(p.repo, "ghcr.io/immich-app/postgres");
    assert_eq!(p.tag, Some("14-vectorchord0.4.3-pgvectors0.2.0"));
    assert_eq!(
        p.digest,
        Some("sha256:bcf63357191b76a916ae5eb93464d65c07511da41e3bf7a8416db519b40b1c2")
    );
}

#[test]
fn valkey_pinned_short_tag_with_digest() {
    let p = parse_image_ref(
        "docker.io/valkey/valkey:9@sha256:fb8d272e529ea567b9bf1302245796f21a2672b8368ca3fcb938ac334e613c8",
    );
    assert_eq!(p.repo, "docker.io/valkey/valkey");
    assert_eq!(p.tag, Some("9"));
    assert_eq!(
        p.digest,
        Some("sha256:fb8d272e529ea567b9bf1302245796f21a2672b8368ca3fcb938ac334e613c8")
    );
}

#[test]
fn digest_only_no_tag() {
    let p = parse_image_ref("postgres@sha256:aaaa");
    assert_eq!(p.repo, "postgres");
    assert_eq!(p.tag, None);
    assert_eq!(p.digest, Some("sha256:aaaa"));
}

#[test]
fn registry_port_is_not_a_tag() {
    let p = parse_image_ref("registry.local:5000/app");
    assert_eq!(p.repo, "registry.local:5000/app");
    assert_eq!(p.tag, None);
    assert_eq!(p.digest, None);
    let p = parse_image_ref("registry.local:5000/app:2");
    assert_eq!(p.repo, "registry.local:5000/app");
    assert_eq!(p.tag, Some("2"));
}

#[test]
fn at_without_sha256_is_not_a_digest() {
    let p = parse_image_ref("app:1@md5:ff");
    assert_eq!(p.digest, None);
    assert_eq!(p.repo, "app:1@md5");
    assert_eq!(p.tag, Some("ff"));
}

#[test]
fn parts_reassemble_to_the_reference() {
    for image in [
        "postgres:16",
        "postgres@sha256:aaaa",
        "a.b:5000/c/d:e@sha256:1234",
        "registry.local:5000/app",
        "x",
    ] {
        let p = parse_image_ref(image);
        let mut joined = p.repo.to_string();
        if let Some(t) = p.tag {
            joined.push(':');
            joined.push_str(t);
        }
        if let Some(d) = p.digest {
            joined.push('@');
            joined.push_str(d);
        }
        assert_eq!(joined, image);
    }
}
