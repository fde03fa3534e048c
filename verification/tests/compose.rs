use dockman::compose::{
    action_command, action_outcome, combine_output, service_lines, stack_status, status_command,
    RawPublisher, RawService,
};
use dockman::model::{ComposeDir, HostConfig, SshReply, StackAction};

fn raw(ports: &str, health: &str, publishers: Vec<RawPublisher>) -> RawService {
    RawService {
        name: "app-web-1".to_string(),
        service: "web".to_string(),
        image: "nginx:1.25".to_string(),
        state: "running".to_string(),
        status: "Up 3 hours (healthy)".to_string(),
        health: health.to_string(),
        ports: ports.to_string(),
        publishers,
    }
}

fn publisher(url: &str, target: u32, published: u32, protocol: &str) -> RawPublisher {
    RawPublisher {
        url: url.to_string(),
        target_port: target,
        published_port: published,
        protocol: protocol.to_string(),
    }
}

#[test]
fn ports_text_is_kept() {
    let s = raw("0.0.0.0:80->80/tcp", "healthy", vec![publisher("0.0.0.0", 1, 2, "udp")]).into_service();
    assert_eq!(s.ports, "0.0.0.0:80->80/tcp");
    assert_eq!(s.health, Some("healthy".to_string()));
    assert_eq!(s.name, "app-web-1");
    assert_eq!(s.service, "web");
    assert_eq!(s.image, "nginx:1.25");
    assert_eq!(s.state, "running");
    assert_eq!(s.status, "Up 3 hours (healthy)");
}

#[test]
fn ports_come_from_publishers_when_missing() {
    let s = raw(
        "",
        "",
        vec![
            publisher("0.0.0.0", 80, 8080, "tcp"),
            publisher("", 9000, 0, "tcp"),
            publisher("::", 443, 4430, "udp"),
        ],
    )
    .into_service();
    assert_eq!(s.ports, "0.0.0.0:8080->80/tcp, :::4430->443/udp");
    assert_eq!(s.health, None);
}

#[test]
fn large_and_zero_target_ports_are_written_in_decimal() {
    let s = raw("", "", vec![publisher("h", 0, 4294967295, "tcp")]).into_service();
    assert_eq!(s.ports, "h:4294967295->0/tcp");
    let s = raw("", "", vec![]).into_service();
    assert_eq!(s.ports, "");
}

#[test]
fn combined_output_joins_with_a_newline_and_trims() {
    assert_eq!(combine_output("out\n", "err\n"), "out\n\nerr");
    assert_eq!(combine_output("  out  ", ""), "out");
    assert_eq!(combine_output("", " err "), "err");
    assert_eq!(combine_output("", ""), "");
}

#[test]
fn service_lines_skip_blank_lines() {
    let out = "{\"Name\":\"a\"}\r\n\n   \n{\"Name\":\"b\"}";
    assert_eq!(service_lines(out), vec!["{\"Name\":\"a\"}", "{\"Name\":\"b\"}"]);
    assert_eq!(service_lines(""), Vec::<&str>::new());
}

fn host() -> HostConfig {
    HostConfig {
        id: "box".to_string(),
        ssh_alias: "box".to_string(),
        label: "Box".to_string(),
        compose_dirs: vec![],
    }
}

fn dir() -> ComposeDir {
    ComposeDir {
        id: "/srv/my app".to_string(),
        path: "/srv/my app".to_string(),
        label: "my app".to_string(),
    }
}

#[test]
fn status_command_lists_services_as_json() {
    assert_eq!(status_command(&dir()), "cd '/srv/my app' && docker compose ps --format json");
}

#[test]
fn stack_status_reports_services_or_error() {
    let services = vec![raw("", "", vec![]).into_service()];
    let ok = stack_status(
        &host(),
        &dir(),
        &SshReply::Completed { success: true, output: String::new() },
        services,
    );
    assert_eq!(ok.host_id, "box");
    assert_eq!(ok.dir_id, "/srv/my app");
    assert_eq!(ok.services.len(), 1);
    assert_eq!(ok.error, None);

    let failed = stack_status(
        &host(),
        &dir(),
        &SshReply::Completed { success: false, output: String::new() },
        vec![raw("", "", vec![]).into_service()],
    );
    assert_eq!(failed.services.len(), 0);
    assert_eq!(failed.error, Some("ssh or docker compose command failed".to_string()));

    let failed = stack_status(
        &host(),
        &dir(),
        &SshReply::Completed { success: false, output: "no such directory".to_string() },
        vec![],
    );
    assert_eq!(failed.error, Some("no such directory".to_string()));

    let down = stack_status(
        &host(),
        &dir(),
        &SshReply::Unreachable { message: "ssh not found".to_string() },
        vec![],
    );
    assert_eq!(down.error, Some("ssh not found".to_string()));
}

#[test]
fn action_commands_chain_with_and() {
    assert_eq!(
        action_command(&dir(), StackAction::Update),
        "cd '/srv/my app' && docker compose pull && docker compose up -d"
    );
    assert_eq!(action_command(&dir(), StackAction::Stop), "cd '/srv/my app' && docker compose stop");
    assert_eq!(
        action_command(&dir(), StackAction::Restart),
        "cd '/srv/my app' && docker compose restart"
    );
    assert_eq!(action_command(&dir(), StackAction::Start), "cd '/srv/my app' && docker compose up -d");
}

#[test]
fn action_outcome_follows_the_reply() {
    let o = action_outcome(&host(), &dir(), &SshReply::Completed { success: true, output: "done".to_string() });
    assert!(o.ok);
    assert_eq!(o.output, "done");
    assert_eq!(o.host_id, "box");
    assert_eq!(o.dir_id, "/srv/my app");
    let o = action_outcome(&host(), &dir(), &SshReply::Completed { success: false, output: "bad".to_string() });
    assert!(!o.ok);
    let o = action_outcome(&host(), &dir(), &SshReply::Unreachable { message: "gone".to_string() });
    assert!(!o.ok);
    assert_eq!(o.output, "gone");
}
