//! The `docker compose` side of a stack: the remote commands, the reading
//! of `docker compose ps --format json` services, and the status and
//! outcome records built from what ssh gave back.
use vstd::prelude::*;
use vstd::string::*;
use crate::text::{lines, lines_of, push_char, trim, trim_str};
use crate::quoting::{cd_prefix, spec_cd_prefix};
use crate::model::{
    opt_view, services_view, ActionOutcome, ActionOutcomeView, ComposeDir, ComposeService,
    ComposeServiceView, HostConfig, SshReply, StackAction, StackStatus, StackStatusView,
};
use crate::image_ref::strings_view;
use crate::sorting::{sorted_unique, strictly_sorted};

verus! {

/// One published port, as `docker compose ps --format json` reports it in
/// its `Publishers` list.
#[derive(Debug)]
pub struct RawPublisher {
    pub url: String,
    pub target_port: u32,
    pub published_port: u32,
    pub protocol: String,
}

/// One service line of `docker compose ps --format json`, with every field
/// that is missing there read as empty.
#[derive(Debug)]
pub struct RawService {
    pub name: String,
    pub service: String,
    pub image: String,
    pub state: String,
    pub status: String,
    pub health: String,
    pub ports: String,
    pub publishers: Vec<RawPublisher>,
}

/// The message of a failed stack listing that printed nothing.
pub const LISTING_FAILED: &'static str = "ssh or docker compose command failed";

/// What follows the `cd` of a stack listing.
pub const PS_COMMAND: &'static str = " && docker compose ps --format json";

/// What joins the commands of an action.
pub const AND_THEN: &'static str = " && ";

/// What starts each docker command of an action.
pub const DOCKER: &'static str = "docker ";

/// What separates the published ports.
pub const PORT_SEPARATOR: &'static str = ", ";

// ---------------------------------------------------------------------
// Specifications
// ---------------------------------------------------------------------

/// The decimal digit `d` as a character.
pub open spec fn digit_char(d: int) -> char {
    ((48 + d) as u8) as char
}

/// The decimal notation of `n`.
pub open spec fn decimal(n: nat) -> Seq<char>
    decreases n,
{
    if n < 10 {
        seq![digit_char(n as int)]
    } else {
        decimal(n / 10).push(digit_char((n % 10) as int))
    }
}

/// `parts` joined, with `sep` between each two.
pub open spec fn join_with(parts: Seq<Seq<char>>, sep: Seq<char>) -> Seq<char>
    decreases parts.len(),
{
    if parts.len() == 0 {
        Seq::empty()
    } else if parts.len() == 1 {
        parts[0]
    } else {
        join_with(parts.drop_last(), sep) + sep + parts.last()
    }
}

/// `url:published->target/protocol`.
pub open spec fn publisher_text(p: RawPublisher) -> Seq<char> {
    p.url@ + seq![':'] + decimal(p.published_port as nat) + seq!['-', '>'] + decimal(
        p.target_port as nat,
    ) + seq!['/'] + p.protocol@
}

/// The texts of the publishers whose published port is not 0, in order.
pub open spec fn published_texts(ps: Seq<RawPublisher>) -> Seq<Seq<char>>
    decreases ps.len(),
{
    if ps.len() == 0 {
        Seq::empty()
    } else {
        let r = published_texts(ps.drop_last());
        if ps.last().published_port != 0 {
            r.push(publisher_text(ps.last()))
        } else {
            r
        }
    }
}

/// The ports of a service: its `Ports` text, or, where that is empty, its
/// published ports joined with ", ".
pub open spec fn spec_ports(raw: RawService) -> Seq<char> {
    if raw.ports@.len() != 0 {
        raw.ports@
    } else {
        join_with(published_texts(raw.publishers@), PORT_SEPARATOR@)
    }
}

/// The service that a raw line describes; an empty health is no health.
pub open spec fn spec_service(raw: RawService) -> ComposeServiceView {
    ComposeServiceView {
        name: raw.name@,
        service: raw.service@,
        image: raw.image@,
        state: raw.state@,
        status: raw.status@,
        health: if raw.health@.len() == 0 {
            None
        } else {
            Some(raw.health@)
        },
        ports: spec_ports(raw),
    }
}

/// stdout, then stderr on a line of its own when both are there, trimmed.
pub open spec fn spec_combine_output(stdout: Seq<char>, stderr: Seq<char>) -> Seq<char> {
    trim(
        if stderr.len() == 0 {
            stdout
        } else if stdout.len() == 0 {
            stderr
        } else {
            stdout + seq!['\n'] + stderr
        },
    )
}

/// The lines of an output that hold more than whitespace.
pub open spec fn service_line_texts(output: Seq<char>) -> Seq<Seq<char>> {
    lines(output).filter(|l: Seq<char>| trim(l).len() != 0)
}

/// The status of a stack from the reply to its listing and the services
/// read from the listing's lines.
pub open spec fn spec_stack_status(
    host_id: Seq<char>,
    dir_id: Seq<char>,
    reply: SshReply,
    services: Seq<ComposeServiceView>,
) -> StackStatusView {
    match reply {
        SshReply::Completed { success: true, .. } => StackStatusView {
            host_id,
            dir_id,
            services,
            error: None,
        },
        SshReply::Completed { success: false, output } => StackStatusView {
            host_id,
            dir_id,
            services: Seq::empty(),
            error: Some(
                if output@.len() == 0 {
                    LISTING_FAILED@
                } else {
                    output@
                },
            ),
        },
        SshReply::Unreachable { message } => StackStatusView {
            host_id,
            dir_id,
            services: Seq::empty(),
            error: Some(message@),
        },
    }
}

/// The remote command that lists a stack's services.
pub open spec fn spec_status_command(path: Seq<char>) -> Seq<char> {
    spec_cd_prefix(path) + PS_COMMAND@
}

/// The remote command of an action: `cd` into the stack, then each docker
/// compose subcommand, all chained with `&&`.
pub open spec fn spec_action_command(path: Seq<char>, action: StackAction) -> Seq<char> {
    spec_cd_prefix(path) + AND_THEN@ + join_with(
        action.spec_compose_commands().map_values(|c: Seq<char>| DOCKER@ + c),
        AND_THEN@,
    )
}

/// The outcome of an action from the reply of its ssh call.
pub open spec fn spec_action_outcome(host_id: Seq<char>, dir_id: Seq<char>, reply: SshReply) -> ActionOutcomeView {
    match reply {
        SshReply::Completed { success, output } => ActionOutcomeView {
            host_id,
            dir_id,
            ok: success,
            output: output@,
        },
        SshReply::Unreachable { message } => ActionOutcomeView {
            host_id,
            dir_id,
            ok: false,
            output: message@,
        },
    }
}

// ---------------------------------------------------------------------
// Laws
// ---------------------------------------------------------------------

/// Law: a failed or unreachable listing always reports an error and no
/// services; a successful one reports no error.
pub proof fn law_stack_status_error_iff_failure(
    host_id: Seq<char>,
    dir_id: Seq<char>,
    reply: SshReply,
    services: Seq<ComposeServiceView>,
)
    ensures
        (spec_stack_status(host_id, dir_id, reply, services).error is None) <==> (reply matches SshReply::Completed { success: true, .. }),
        spec_stack_status(host_id, dir_id, reply, services).error is Some
            ==> spec_stack_status(host_id, dir_id, reply, services).services.len() == 0,
{
}

/// Law: an Update action pulls before it starts.
pub proof fn law_update_pulls_then_starts(path: Seq<char>)
    ensures
        spec_action_command(path, StackAction::Update) == spec_cd_prefix(path) + AND_THEN@
            + DOCKER@ + "compose pull"@ + AND_THEN@ + DOCKER@ + "compose up -d"@,
{
    let cmds = StackAction::Update.spec_compose_commands().map_values(|c: Seq<char>| DOCKER@ + c);
    assert(cmds.drop_last() =~= seq![DOCKER@ + "compose pull"@]);
    assert(join_with(cmds.drop_last(), AND_THEN@) == DOCKER@ + "compose pull"@);
    assert(spec_action_command(path, StackAction::Update) =~= spec_cd_prefix(path) + AND_THEN@
        + DOCKER@ + "compose pull"@ + AND_THEN@ + DOCKER@ + "compose up -d"@);
}

/// Law: joining puts the separator between every two consecutive parts:
/// one more part at the end adds the separator and the part.
pub proof fn law_join_appends_with_separator(parts: Seq<Seq<char>>, x: Seq<char>, sep: Seq<char>)
    requires
        parts.len() >= 1,
    ensures
        join_with(parts.push(x), sep) == join_with(parts, sep) + sep + x,
{
    assert(parts.push(x).drop_last() =~= parts);
}

/// Law: joining, read from the front: the first part, then the separator
/// and the join of the others.
pub proof fn law_join_from_front(x: Seq<char>, parts: Seq<Seq<char>>, sep: Seq<char>)
    requires
        parts.len() >= 1,
    ensures
        join_with(seq![x] + parts, sep) == x + sep + join_with(parts, sep),
    decreases parts.len(),
{
    let all = seq![x] + parts;
    assert(all.len() >= 2);
    if parts.len() == 1 {
        assert(all.drop_last() =~= seq![x]);
        assert(all.last() == parts[0]);
        assert(join_with(seq![x], sep) == x);
        assert(join_with(all, sep) == join_with(all.drop_last(), sep) + sep + all.last());
        assert(join_with(parts, sep) == parts[0]);
    } else {
        law_join_from_front(x, parts.drop_last(), sep);
        assert(all.drop_last() =~= seq![x] + parts.drop_last());
        assert(all.last() == parts.last());
        assert(join_with(all, sep) == join_with(all.drop_last(), sep) + sep + all.last());
        assert(join_with(parts, sep) == join_with(parts.drop_last(), sep) + sep + parts.last());
        assert(x + sep + join_with(parts.drop_last(), sep) + sep + parts.last() =~= x + sep + (
        join_with(parts.drop_last(), sep) + sep + parts.last()));
    }
}

/// Law: the ports text written from the publishers holds, in order, the
/// text of each publisher whose published port is not 0, separated by
/// ", ": with one more such publisher at the end, its text follows after
/// ", " (or stands alone when it is the first).
pub proof fn law_ports_list_each_publisher(ps: Seq<RawPublisher>, p: RawPublisher)
    requires
        p.published_port != 0,
    ensures
        published_texts(ps.push(p)) == published_texts(ps).push(publisher_text(p)),
        join_with(published_texts(ps.push(p)), PORT_SEPARATOR@) == if published_texts(ps).len() == 0 {
            publisher_text(p)
        } else {
            join_with(published_texts(ps), PORT_SEPARATOR@) + PORT_SEPARATOR@ + publisher_text(p)
        },
{
    assert(ps.push(p).drop_last() =~= ps);
    if published_texts(ps).len() > 0 {
        law_join_appends_with_separator(published_texts(ps), publisher_text(p), PORT_SEPARATOR@);
    } else {
        assert(published_texts(ps).push(publisher_text(p)) =~= seq![publisher_text(p)]);
    }
}

/// Law: the outcome of an action reports whether the remote command
/// succeeded and its combined output, whether it succeeded or failed; an
/// ssh that could not run is a failure reporting its error.
pub proof fn law_action_outcome_keeps_output(
    host_id: Seq<char>,
    dir_id: Seq<char>,
    reply: SshReply,
)
    ensures
        spec_action_outcome(host_id, dir_id, reply).host_id == host_id,
        spec_action_outcome(host_id, dir_id, reply).dir_id == dir_id,
        reply matches SshReply::Completed { success, output } ==> spec_action_outcome(
            host_id,
            dir_id,
            reply,
        ).ok == success && spec_action_outcome(host_id, dir_id, reply).output == output@,
        reply matches SshReply::Unreachable { message } ==> !spec_action_outcome(
            host_id,
            dir_id,
            reply,
        ).ok && spec_action_outcome(host_id, dir_id, reply).output == message@,
{
}

// ---------------------------------------------------------------------
// Executable operations
// ---------------------------------------------------------------------

/// Appends the decimal notation of `n`.
pub fn push_decimal(out: &mut String, n: u32)
    ensures
        final(out)@ == old(out)@ + decimal(n as nat),
    decreases n,
{
    if n >= 10 {
        push_decimal(out, n / 10);
    }
    let d: u32 = n % 10;
    let c: char = ((48 + d) as u8) as char;
    push_char(out, c);
    proof {
        if n >= 10 {
            assert(decimal(n as nat) == decimal((n / 10) as nat).push(digit_char((n % 10) as int)));
        }
    }
    assert(final(out)@ =~= old(out)@ + decimal(n as nat)) by {
        if n < 10 {
            assert(d == n);
        }
    }
}

/// `parts` joined, with `sep` between each two.
pub fn join_strings(parts: &Vec<String>, sep: &str) -> (r: String)
    ensures
        r@ == join_with(strings_view(parts@), sep@),
{
    let ghost ps = strings_view(parts@);
    let mut out = String::new();
    let mut i: usize = 0;
    while i < parts.len()
        invariant
            i <= parts.len(),
            ps == strings_view(parts@),
            out@ == join_with(ps.take(i as int), sep@),
        decreases parts.len() - i,
    {
        if i > 0 {
            out.append(sep);
        }
        out.append(parts[i].as_str());
        proof {
            let t = ps.take(i + 1);
            assert(t.drop_last() =~= ps.take(i as int));
            assert(t.last() == parts@[i as int]@);
            if i == 0 {
                assert(ps.take(0) =~= Seq::<Seq<char>>::empty());
            }
        }
        i = i + 1;
    }
    assert(ps.take(parts.len() as int) =~= ps);
    out
}

/// The text of a published port: `url:published->target/protocol`.
fn publisher_string(p: &RawPublisher) -> (r: String)
    ensures
        r@ == publisher_text(*p),
{
    let mut out = p.url.clone();
    push_char(&mut out, ':');
    push_decimal(&mut out, p.published_port);
    push_char(&mut out, '-');
    push_char(&mut out, '>');
    push_decimal(&mut out, p.target_port);
    push_char(&mut out, '/');
    out.append(p.protocol.as_str());
    assert(out@ =~= publisher_text(*p));
    out
}

impl RawService {
    /// The service that this line describes. `Ports` is used when present;
    /// else the published ports (those not 0) are written out from
    /// `Publishers`, since compose versions differ in which they fill.
    pub fn into_service(self) -> (r: ComposeService)
        ensures
            r@ == spec_service(self),
    {
        let ghost raw = self;
        let ports = if !self.ports.as_str().is_empty() {
            self.ports
        } else {
            let mut texts: Vec<String> = Vec::new();
            let mut i: usize = 0;
            while i < self.publishers.len()
                invariant
                    i <= self.publishers.len(),
                    strings_view(texts@) == published_texts(self.publishers@.take(i as int)),
                decreases self.publishers.len() - i,
            {
                let p = &self.publishers[i];
                let ghost before = strings_view(texts@);
                assert(self.publishers@.take(i + 1).drop_last() =~= self.publishers@.take(
                    i as int,
                ));
                if p.published_port != 0 {
                    let t = publisher_string(p);
                    texts.push(t);
                    assert(strings_view(texts@) =~= before.push(t@));
                }
                i = i + 1;
            }
            assert(self.publishers@.take(self.publishers.len() as int) =~= self.publishers@);
            join_strings(&texts, PORT_SEPARATOR)
        };
        let health = if self.health.as_str().is_empty() {
            None
        } else {
            Some(self.health)
        };
        ComposeService {
            name: self.name,
            service: self.service,
            image: self.image,
            state: self.state,
            status: self.status,
            health,
            ports,
        }
    }
}

/// stdout, then stderr on a line of its own when both are there, trimmed:
/// the combined output of an ssh call.
pub fn combine_output(stdout: &str, stderr: &str) -> (r: String)
    ensures
        r@ == spec_combine_output(stdout@, stderr@),
{
    let mut combined = stdout.to_owned();
    if !stderr.is_empty() {
        if !combined.as_str().is_empty() {
            push_char(&mut combined, '\n');
        } else {
            assert(stdout@ =~= Seq::<char>::empty());
        }
        combined.append(stderr);
    }
    assert(combined@ =~= (if stderr@.len() == 0 {
        stdout@
    } else if stdout@.len() == 0 {
        stderr@
    } else {
        stdout@ + seq!['\n'] + stderr@
    }));
    trim_str(combined.as_str()).to_owned()
}

/// The lines of a listing that hold more than whitespace: one JSON object
/// per service.
pub fn service_lines<'a>(output: &'a str) -> (r: Vec<&'a str>)
    ensures
        r@.map_values(|l: &str| l@) == service_line_texts(output@),
{
    let all = lines_of(output);
    let ghost ls = lines(output@);
    let mut r: Vec<&'a str> = Vec::new();
    let mut i: usize = 0;
    while i < all.len()
        invariant
            i <= all.len(),
            all@.map_values(|l: &str| l@) == ls,
            r@.map_values(|l: &str| l@) == ls.take(i as int).filter(
                |l: Seq<char>| trim(l).len() != 0,
            ),
        decreases all.len() - i,
    {
        let ghost before = r@.map_values(|l: &str| l@);
        let line = all[i];
        let t = trim_str(line);
        assert(ls[i as int] == line@);
        assert(ls.take(i + 1).drop_last() =~= ls.take(i as int));
        reveal(Seq::filter);
        if !t.is_empty() {
            r.push(line);
            assert(r@.map_values(|l: &str| l@) =~= before.push(line@));
        }
        i = i + 1;
    }
    assert(ls.take(all.len() as int) =~= ls);
    r
}

/// The remote command that lists a stack's services as JSON lines.
pub fn status_command(dir: &ComposeDir) -> (r: String)
    ensures
        r@ == spec_status_command(dir.path@),
{
    let mut out = cd_prefix(dir.path.as_str());
    out.append(PS_COMMAND);
    out
}

/// The status of a stack from the reply to its listing and the services
/// read from the lines of a successful listing. A failed listing reports
/// its output, or a fixed message when it printed nothing, rather than an
/// empty stack.
pub fn stack_status(
    host: &HostConfig,
    dir: &ComposeDir,
    reply: &SshReply,
    services: Vec<ComposeService>,
) -> (r: StackStatus)
    ensures
        r@ == spec_stack_status(host.id@, dir.id@, *reply, services_view(services@)),
{
    let host_id = host.id.clone();
    let dir_id = dir.id.clone();
    match reply {
        SshReply::Completed { success, output } => {
            if *success {
                StackStatus { host_id, dir_id, services, error: None }
            } else {
                let message = if output.as_str().is_empty() {
                    LISTING_FAILED.to_owned()
                } else {
                    output.clone()
                };
                let r = StackStatus { host_id, dir_id, services: Vec::new(), error: Some(message) };
                assert(services_view(r.services@) =~= Seq::<ComposeServiceView>::empty());
                r
            }
        },
        SshReply::Unreachable { message } => {
            let r = StackStatus {
                host_id,
                dir_id,
                services: Vec::new(),
                error: Some(message.clone()),
            };
            assert(services_view(r.services@) =~= Seq::<ComposeServiceView>::empty());
            r
        },
    }
}

/// The remote command of `action` on a stack: `cd` into its directory,
/// then `docker <subcommand>` for each compose subcommand of the action,
/// chained with `&&` so that any failure stops the sequence.
pub fn action_command(dir: &ComposeDir, action: StackAction) -> (r: String)
    ensures
        r@ == spec_action_command(dir.path@, action),
{
    let cmds = action.compose_commands();
    let ghost specs = action.spec_compose_commands();
    let mut parts: Vec<String> = Vec::new();
    let mut i: usize = 0;
    while i < cmds.len()
        invariant
            i <= cmds.len(),
            cmds@.map_values(|c: &str| c@) == specs,
            strings_view(parts@) == specs.take(i as int).map_values(|c: Seq<char>| DOCKER@ + c),
        decreases cmds.len() - i,
    {
        let ghost before = strings_view(parts@);
        let mut p = DOCKER.to_owned();
        p.append(cmds[i]);
        assert(specs[i as int] == cmds@[i as int]@);
        parts.push(p);
        assert(strings_view(parts@) =~= before.push(p@));
        assert(specs.take(i + 1).map_values(|c: Seq<char>| DOCKER@ + c) =~= specs.take(
            i as int,
        ).map_values(|c: Seq<char>| DOCKER@ + c).push(DOCKER@ + specs[i as int]));
        i = i + 1;
    }
    assert(specs.take(cmds.len() as int) =~= specs);
    let mut out = cd_prefix(dir.path.as_str());
    out.append(AND_THEN);
    let chained = join_strings(&parts, AND_THEN);
    out.append(chained.as_str());
    out
}

/// The outcome of an action on a stack from the reply of its ssh call;
/// an ssh that could not run is a failure with its error as the output.
pub fn action_outcome(host: &HostConfig, dir: &ComposeDir, reply: &SshReply) -> (r: ActionOutcome)
    ensures
        r@ == spec_action_outcome(host.id@, dir.id@, *reply),
{
    match reply {
        SshReply::Completed { success, output } => ActionOutcome {
            host_id: host.id.clone(),
            dir_id: dir.id.clone(),
            ok: *success,
            output: output.clone(),
        },
        SshReply::Unreachable { message } => ActionOutcome {
            host_id: host.id.clone(),
            dir_id: dir.id.clone(),
            ok: false,
            output: message.clone(),
        },
    }
}

/// The images that the services run, sorted, each once: a stack with four
/// services on two images is checked twice, not four times.
pub fn unique_images(services: &Vec<ComposeService>) -> (r: Vec<String>)
    ensures
        strictly_sorted(strings_view(r@)),
        strings_view(r@).to_set() == services_view(services@).map_values(
            |s: ComposeServiceView| s.image,
        ).to_set(),
{
    let ghost sv = services_view(services@).map_values(|s: ComposeServiceView| s.image);
    let mut images: Vec<String> = Vec::new();
    let mut i: usize = 0;
    while i < services.len()
        invariant
            i <= services.len(),
            sv == services_view(services@).map_values(|s: ComposeServiceView| s.image),
            strings_view(images@) == sv.take(i as int),
        decreases services.len() - i,
    {
        let ghost before = strings_view(images@);
        let im = services[i].image.clone();
        images.push(im);
        assert(strings_view(images@) =~= before.push(im@));
        assert(sv.take(i + 1) =~= sv.take(i as int).push(services@[i as int].image@));
        i = i + 1;
    }
    assert(sv.take(services.len() as int) =~= sv);
    sorted_unique(images)
}

} // verus!
