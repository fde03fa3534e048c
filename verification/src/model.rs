//! The data that the hosts store, the stack commands and the version check
//! share, and the mathematical view of each type.
use vstd::prelude::*;

verus! {

/// A remote (or local) machine, identified by its alias in `~/.ssh/config`.
/// Auth, ProxyJump, port, identity file and the like are whatever that alias
/// already resolves to.
#[derive(Debug, PartialEq, Eq)]
pub struct HostConfig {
    /// Unique id, currently the ssh alias.
    pub id: String,
    /// The `Host` entry in `~/.ssh/config`, e.g. "cachyos-box".
    pub ssh_alias: String,
    /// Friendly display name; defaults to ssh_alias.
    pub label: String,
    pub compose_dirs: Vec<ComposeDir>,
}

/// A directory on a host that holds a `docker-compose.yml`.
#[derive(Debug, PartialEq, Eq)]
pub struct ComposeDir {
    /// Unique id, currently the path.
    pub id: String,
    /// Absolute path on the remote host containing docker-compose.yml.
    pub path: String,
    /// Friendly display name; by default the last path segment.
    pub label: String,
}

/// One service/container as reported by `docker compose ps --format json`.
#[derive(Debug)]
pub struct ComposeService {
    pub name: String,
    pub service: String,
    pub image: String,
    /// e.g. "running", "exited"
    pub state: String,
    /// human readable, e.g. "Up 3 hours (healthy)"
    pub status: String,
    pub health: Option<String>,
    pub ports: String,
}

/// Result of listing a stack: either the service data, or the error of the
/// ssh / docker compose call itself (host down, directory wrong, ...).
#[derive(Debug)]
pub struct StackStatus {
    pub host_id: String,
    pub dir_id: String,
    pub services: Vec<ComposeService>,
    pub error: Option<String>,
}

/// What a stack can be asked to do.
#[derive(Debug, Clone, Copy, PartialEq, Eq, Structural)]
pub enum StackAction {
    /// docker compose pull && docker compose up -d
    Update,
    /// docker compose stop
    Stop,
    /// docker compose restart
    Restart,
    /// docker compose up -d (start without pulling)
    Start,
}

/// The outcome of running a stack action.
#[derive(Debug)]
pub struct ActionOutcome {
    pub host_id: String,
    pub dir_id: String,
    pub ok: bool,
    /// Combined stdout and stderr, trimmed.
    pub output: String,
}

/// Whether a running image is the one the registry serves for its tag.
#[derive(Debug, Clone, Copy, PartialEq, Eq, Structural)]
pub enum VersionStatus {
    UpToDate,
    UpdateAvailable,
    /// Could not be determined: buildx missing on that host, image built
    /// locally with no registry digest, private registry auth issue,
    /// network hiccup, etc.
    Unknown,
}

/// Result of comparing a running image's digest against what the registry
/// currently has for the same tag.
#[derive(Debug)]
pub struct ImageVersionInfo {
    pub image: String,
    pub status: VersionStatus,
    pub running_digest: Option<String>,
    pub latest_digest: Option<String>,
}

/// What an ssh call gave back: the remote command ran (successfully or
/// not) with its combined output, or ssh itself could not be started.
#[derive(Debug)]
pub enum SshReply {
    Completed { success: bool, output: String },
    Unreachable { message: String },
}

// ---------------------------------------------------------------------
// Views
// ---------------------------------------------------------------------

pub ghost struct ComposeDirView {
    pub id: Seq<char>,
    pub path: Seq<char>,
    pub label: Seq<char>,
}

pub ghost struct HostConfigView {
    pub id: Seq<char>,
    pub ssh_alias: Seq<char>,
    pub label: Seq<char>,
    pub compose_dirs: Seq<ComposeDirView>,
}

pub ghost struct ComposeServiceView {
    pub name: Seq<char>,
    pub service: Seq<char>,
    pub image: Seq<char>,
    pub state: Seq<char>,
    pub status: Seq<char>,
    pub health: Option<Seq<char>>,
    pub ports: Seq<char>,
}

pub ghost struct StackStatusView {
    pub host_id: Seq<char>,
    pub dir_id: Seq<char>,
    pub services: Seq<ComposeServiceView>,
    pub error: Option<Seq<char>>,
}

pub ghost struct ActionOutcomeView {
    pub host_id: Seq<char>,
    pub dir_id: Seq<char>,
    pub ok: bool,
    pub output: Seq<char>,
}

pub ghost struct ImageVersionInfoView {
    pub image: Seq<char>,
    pub status: VersionStatus,
    pub running_digest: Option<Seq<char>>,
    pub latest_digest: Option<Seq<char>>,
}

/// The view of an optional text.
pub open spec fn opt_view(o: Option<String>) -> Option<Seq<char>> {
    match o {
        Some(s) => Some(s@),
        None => None,
    }
}

/// The view of an optional borrowed text.
pub open spec fn opt_str_view(o: Option<&str>) -> Option<Seq<char>> {
    match o {
        Some(s) => Some(s@),
        None => None,
    }
}

impl View for ComposeDir {
    type V = ComposeDirView;

    open spec fn view(&self) -> ComposeDirView {
        ComposeDirView { id: self.id@, path: self.path@, label: self.label@ }
    }
}

impl View for HostConfig {
    type V = HostConfigView;

    open spec fn view(&self) -> HostConfigView {
        HostConfigView {
            id: self.id@,
            ssh_alias: self.ssh_alias@,
            label: self.label@,
            compose_dirs: dirs_view(self.compose_dirs@),
        }
    }
}

/// The views of a sequence of compose directories.
pub open spec fn dirs_view(d: Seq<ComposeDir>) -> Seq<ComposeDirView> {
    d.map_values(|x: ComposeDir| x@)
}

/// The views of a sequence of hosts.
pub open spec fn hosts_view(h: Seq<HostConfig>) -> Seq<HostConfigView> {
    h.map_values(|x: HostConfig| x@)
}

impl View for ComposeService {
    type V = ComposeServiceView;

    open spec fn view(&self) -> ComposeServiceView {
        ComposeServiceView {
            name: self.name@,
            service: self.service@,
            image: self.image@,
            state: self.state@,
            status: self.status@,
            health: opt_view(self.health),
            ports: self.ports@,
        }
    }
}

/// The views of a sequence of services.
pub open spec fn services_view(s: Seq<ComposeService>) -> Seq<ComposeServiceView> {
    s.map_values(|x: ComposeService| x@)
}

impl View for StackStatus {
    type V = StackStatusView;

    open spec fn view(&self) -> StackStatusView {
        StackStatusView {
            host_id: self.host_id@,
            dir_id: self.dir_id@,
            services: services_view(self.services@),
            error: opt_view(self.error),
        }
    }
}

impl View for ActionOutcome {
    type V = ActionOutcomeView;

    open spec fn view(&self) -> ActionOutcomeView {
        ActionOutcomeView {
            host_id: self.host_id@,
            dir_id: self.dir_id@,
            ok: self.ok,
            output: self.output@,
        }
    }
}

impl View for ImageVersionInfo {
    type V = ImageVersionInfoView;

    open spec fn view(&self) -> ImageVersionInfoView {
        ImageVersionInfoView {
            image: self.image@,
            status: self.status,
            running_digest: opt_view(self.running_digest),
            latest_digest: opt_view(self.latest_digest),
        }
    }
}

// ---------------------------------------------------------------------
// Copies
// ---------------------------------------------------------------------

impl Clone for ComposeDir {
    fn clone(&self) -> (r: Self)
        ensures
            r@ == self@,
    {
        ComposeDir { id: self.id.clone(), path: self.path.clone(), label: self.label.clone() }
    }
}

/// A copy of a list of compose directories.
pub fn copy_dirs(d: &Vec<ComposeDir>) -> (r: Vec<ComposeDir>)
    ensures
        dirs_view(r@) == dirs_view(d@),
{
    let mut r: Vec<ComposeDir> = Vec::new();
    let mut i: usize = 0;
    while i < d.len()
        invariant
            i <= d.len(),
            dirs_view(r@) == dirs_view(d@.take(i as int)),
        decreases d.len() - i,
    {
        let ghost before = r@;
        let c = d[i].clone();
        assert(c@ == d@[i as int]@);
        r.push(c);
        assert(r@ == before.push(c));
        assert(d@.take(i + 1) =~= d@.take(i as int).push(d@[i as int]));
        assert(dirs_view(r@) =~= dirs_view(before).push(c@));
        assert(dirs_view(d@.take(i + 1)) =~= dirs_view(d@.take(i as int)).push(d@[i as int]@));
        i = i + 1;
    }
    assert(d@.take(d.len() as int) =~= d@);
    r
}

impl Clone for HostConfig {
    fn clone(&self) -> (r: Self)
        ensures
            r@ == self@,
    {
        HostConfig {
            id: self.id.clone(),
            ssh_alias: self.ssh_alias.clone(),
            label: self.label.clone(),
            compose_dirs: copy_dirs(&self.compose_dirs),
        }
    }
}

impl StackAction {
    /// The docker compose subcommands of the action, in the order they run.
    pub open spec fn spec_compose_commands(self) -> Seq<Seq<char>> {
        match self {
            StackAction::Update => seq!["compose pull"@, "compose up -d"@],
            StackAction::Stop => seq!["compose stop"@],
            StackAction::Restart => seq!["compose restart"@],
            StackAction::Start => seq!["compose up -d"@],
        }
    }

    /// The docker compose subcommand(s) to run in the stack directory,
    /// chained with && so any failure stops the sequence.
    pub fn compose_commands(&self) -> (r: &'static [&'static str])
        ensures
            r@.map_values(|c: &str| c@) == self.spec_compose_commands(),
    {
        let r: &'static [&'static str] = match self {
            StackAction::Update => &["compose pull", "compose up -d"],
            StackAction::Stop => &["compose stop"],
            StackAction::Restart => &["compose restart"],
            StackAction::Start => &["compose up -d"],
        };
        assert(r@.map_values(|c: &str| c@) =~= self.spec_compose_commands());
        r
    }
}

} // verus!
