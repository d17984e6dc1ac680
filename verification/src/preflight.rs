//! What the readiness check finds out about the host.

use crate::json::{json_member, read_member, value_view, Json, JsonView};
use crate::text::{same, texts};
use vstd::prelude::*;

verus! {

/// Whether docker's command line is there, and how to install it.
#[derive(Clone, Debug)]
pub struct DockerTooling {
    pub present: bool,
    pub install: String,
}

/// What a probe found.
#[derive(Clone, Copy, Debug, PartialEq, Eq, Structural)]
pub enum PreflightProbe {
    Available,
    Unavailable,
    Unknown,
}

impl PreflightProbe {
    pub open spec fn spec_label(self) -> Seq<char> {
        match self {
            PreflightProbe::Available => "available"@,
            PreflightProbe::Unavailable => "unavailable"@,
            PreflightProbe::Unknown => "unknown"@,
        }
    }

    /// The name of what was found.
    pub fn label(self) -> (r: &'static str)
        ensures
            r@ == self.spec_label(),
    {
        match self {
            PreflightProbe::Available => "available",
            PreflightProbe::Unavailable => "unavailable",
            PreflightProbe::Unknown => "unknown",
        }
    }
}

/// Whether a tool's entry is docker's.
pub open spec fn is_docker(name: Option<JsonView>) -> bool {
    name == Some(JsonView::Text("docker"@))
}

/// Whether an entry is docker's, by the value of its name.
pub fn names_docker(name: &Option<Json>) -> (b: bool)
    ensures
        b == is_docker(value_view(*name)),
{
    match name {
        Some(Json::Text(n)) => same(n.as_str(), "docker"),
        _ => false,
    }
}

/// What an entry says, given its values.
pub open spec fn tooling_said(
    present: Option<JsonView>,
    install: Option<JsonView>,
) -> (bool, Seq<char>) {
    (
        match present {
            Some(JsonView::Bool(b)) => b,
            _ => false,
        },
        match install {
            Some(JsonView::Text(s)) => s,
            _ => Seq::empty(),
        },
    )
}

/// Reads an entry from its values.
pub fn tooling_of(present: &Option<Json>, install: &Option<Json>) -> (r: DockerTooling)
    ensures
        (r.present, r.install@) == tooling_said(
            value_view(*present),
            value_view(*install),
        ),
{
    DockerTooling {
        present: match present {
            Some(Json::Bool(b)) => *b,
            _ => false,
        },
        install: match install {
            Some(Json::Text(s)) => s.clone(),
            _ => String::new(),
        },
    }
}

/// The first entry that is docker's.
pub open spec fn docker_entry(tools: Seq<Seq<char>>) -> Option<Seq<char>>
    decreases tools.len(),
{
    if tools.len() == 0 {
        None
    } else if is_docker(json_member(tools[0], "name"@)) {
        Some(tools[0])
    } else {
        docker_entry(tools.skip(1))
    }
}

/// What a tooling report says of docker.
pub open spec fn docker_said(report: Seq<char>) -> Option<(bool, Seq<char>)> {
    match json_member(report, "tools"@) {
        Some(JsonView::List(tools)) => match docker_entry(tools) {
            Some(t) => Some(
                tooling_said(json_member(t, "present"@), json_member(t, "install"@)),
            ),
            None => None,
        },
        _ => None,
    }
}

/// What the hub's start-up report (a JSON text) says of docker. A report without an entry, or no
/// report, is no verdict.
#[verifier::loop_isolation(false)]
pub fn docker_tooling(report: &str) -> (r: Option<DockerTooling>)
    ensures
        match r {
            Some(d) => docker_said(report@) == Some((d.present, d.install@)),
            None => docker_said(report@) is None,
        },
{
    match read_member(report, "tools") {
        Some(Json::List(tools)) => {
            let ghost all = texts(tools@);
            let mut i: usize = 0;
            assert(all.skip(0) =~= all);
            while i < tools.len()
                invariant
                    i <= tools.len(),
                    docker_entry(all) == docker_entry(all.skip(i as int)),
                decreases tools.len() - i,
            {
                let t = tools[i].as_str();
                assert(all.skip(i as int)[0] == t@);
                let name = read_member(t, "name");
                if names_docker(&name) {
                    let present = read_member(t, "present");
                    let install = read_member(t, "install");
                    return Some(tooling_of(&present, &install));
                }
                assert(all.skip(i as int).skip(1) =~= all.skip(i + 1));
                i += 1;
            }
            None
        },
        _ => None,
    }
}

/// What is known before the daemon is asked: nothing yet (ask), that it could not be asked, or
/// that it cannot run.
#[derive(Clone, Copy, Debug, PartialEq, Eq, Structural)]
pub enum ProbePlan {
    Ask,
    Answer(PreflightProbe),
}

/// Whether the daemon is asked.
pub open spec fn planned(has_deploy: bool, docker: Option<DockerTooling>) -> ProbePlan {
    if has_deploy && docker is Some && docker->0.present {
        ProbePlan::Ask
    } else if has_deploy && docker is None {
        ProbePlan::Answer(PreflightProbe::Unknown)
    } else {
        ProbePlan::Answer(PreflightProbe::Unavailable)
    }
}

/// Decides whether to ask the daemon: it takes a way to deploy and a command line that is known
/// to be there. What cannot be asked is never a pass.
pub fn plan_probe(has_deploy: bool, docker: &Option<DockerTooling>) -> (r: ProbePlan)
    ensures
        r == planned(has_deploy, *docker),
        r != ProbePlan::Answer(PreflightProbe::Available),
{
    match docker {
        Some(d) => if has_deploy && d.present {
            ProbePlan::Ask
        } else {
            ProbePlan::Answer(PreflightProbe::Unavailable)
        },
        None => if has_deploy {
            ProbePlan::Answer(PreflightProbe::Unknown)
        } else {
            ProbePlan::Answer(PreflightProbe::Unavailable)
        },
    }
}

/// A yes or no as a probe.
pub fn bool_probe(ok: bool) -> (r: PreflightProbe)
    ensures
        r == if ok {
            PreflightProbe::Available
        } else {
            PreflightProbe::Unavailable
        },
{
    if ok {
        PreflightProbe::Available
    } else {
        PreflightProbe::Unavailable
    }
}

/// What is found out about the daemon and about compose.
pub open spec fn probed(plan: ProbePlan, daemon: bool, compose: bool) -> (
    PreflightProbe,
    PreflightProbe,
) {
    match plan {
        ProbePlan::Ask => (
            if daemon {
                PreflightProbe::Available
            } else {
                PreflightProbe::Unavailable
            },
            if compose {
                PreflightProbe::Available
            } else {
                PreflightProbe::Unavailable
            },
        ),
        ProbePlan::Answer(p) => (p, p),
    }
}

/// What is found out about the daemon and about compose, given what they answered where they were
/// asked.
pub fn deploy_probes(plan: ProbePlan, daemon: bool, compose: bool) -> (r: (
    PreflightProbe,
    PreflightProbe,
))
    ensures
        r == probed(plan, daemon, compose),
{
    match plan {
        ProbePlan::Ask => (bool_probe(daemon), bool_probe(compose)),
        ProbePlan::Answer(p) => (p, p),
    }
}

/// An entry of the report says that a tool is there only where it says so, and how to install it
/// where it says that.
pub proof fn a_tool_is_there_where_the_report_says_so(present: Option<JsonView>, install: Option<JsonView>)
    ensures
        ({
            let (there, how) = tooling_said(present, install);
            &&& there <==> present == Some(JsonView::Bool(true))
            &&& match install {
                Some(JsonView::Text(s)) => how == s,
                _ => how.len() == 0,
            }
        }),
{
}

/// A report says of docker what its first entry of that name says; without such an entry it says
/// nothing.
pub proof fn the_report_speaks_of_docker(report: Seq<char>)
    ensures
        match json_member(report, "tools"@) {
            Some(JsonView::List(tools)) => match docker_said(report) {
                Some(said) => exists|i: int|
                    0 <= i < tools.len() && json_member(#[trigger] tools[i], "name"@) == Some(
                        JsonView::Text("docker"@),
                    ) && said == tooling_said(
                        json_member(tools[i], "present"@),
                        json_member(tools[i], "install"@),
                    ) && (forall|j: int|
                        0 <= j < i ==> json_member(#[trigger] tools[j], "name"@) != Some(
                            JsonView::Text("docker"@),
                        )),
                None => forall|j: int|
                    0 <= j < tools.len() ==> json_member(#[trigger] tools[j], "name"@) != Some(
                        JsonView::Text("docker"@),
                    ),
            },
            _ => docker_said(report) is None,
        },
{
    match json_member(report, "tools"@) {
        Some(JsonView::List(tools)) => {
            the_first_entry_speaks_for_docker(tools);
        },
        _ => {},
    }
}

/// The entry that speaks for docker is the first one of that name.
pub proof fn the_first_entry_speaks_for_docker(tools: Seq<Seq<char>>)
    ensures
        match docker_entry(tools) {
            Some(v) => exists|i: int|
                0 <= i < tools.len() && json_member((#[trigger] tools[i]), "name"@) == Some(JsonView::Text("docker"@)) && tools[i] == v && (forall|j: int|
                    0 <= j < i ==> !(json_member((#[trigger] tools[j]), "name"@) == Some(JsonView::Text("docker"@)))),
            None => forall|j: int| 0 <= j < tools.len() ==> !(json_member((#[trigger] tools[j]), "name"@) == Some(JsonView::Text("docker"@))),
        },
    decreases tools.len(),
{
    if tools.len() > 0 {
        let rest = tools.skip(1);
        the_first_entry_speaks_for_docker(rest);
        assert(forall|j: int| 0 <= j < rest.len() ==> #[trigger] rest[j] == tools[j + 1]);
        assert(forall|j: int| 1 <= j < tools.len() ==> #[trigger] tools[j] == rest[j - 1]);
        if !(json_member(tools[0], "name"@) == Some(JsonView::Text("docker"@))) && docker_entry(rest) is Some {
            let v = docker_entry(rest)->0;
            let i = choose|i: int|
                0 <= i < rest.len() && json_member((#[trigger] rest[i]), "name"@) == Some(JsonView::Text("docker"@)) && rest[i] == v && (forall|j: int|
                    0 <= j < i ==> !(json_member((#[trigger] rest[j]), "name"@) == Some(JsonView::Text("docker"@))));
            assert(json_member(tools[i + 1], "name"@) == Some(JsonView::Text("docker"@)));
        }
    }
}

/// The daemon and compose pass only where they were asked and answered, and they are asked exactly
/// where there is a way to deploy and the command line is known to be there. Where nothing is known
/// of the command line the verdict is open, and where it is missing both fail.
pub proof fn a_pass_takes_an_answer(
    has_deploy: bool,
    docker: Option<DockerTooling>,
    daemon: bool,
    compose: bool,
)
    ensures
        ({
            let (d, c) = probed(planned(has_deploy, docker), daemon, compose);
            let asked = has_deploy && docker is Some && docker->0.present;
            &&& d == PreflightProbe::Available <==> asked && daemon
            &&& c == PreflightProbe::Available <==> asked && compose
            &&& d == PreflightProbe::Unknown <==> has_deploy && docker is None
            &&& c == PreflightProbe::Unknown <==> has_deploy && docker is None
        }),
{
}

} // verus!
